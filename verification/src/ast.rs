//! The syntax tree: programs, statements and expressions, and the text
//! that each node renders to.

use vstd::prelude::*;
use vstd::string::StringExecFns;
use crate::text::push_char;
use crate::token::{Token, TokenView};

verus! {

/// What every node of the tree can do: report the text of the token that
/// introduced it, and render itself as canonical source-like text.
pub trait Node {
    /// The text of the token that introduced the node.
    spec fn spec_token_literal(&self) -> Seq<char>;

    /// The canonical text of the node.
    spec fn spec_as_string(&self) -> Seq<char>;

    fn token_literal(&self) -> (text: String)
        ensures
            text@ == self.spec_token_literal(),
    ;

    fn as_string(&self) -> (text: String)
        ensures
            text@ == self.spec_as_string(),
    ;
}

/// A name used as an expression.
#[derive(Debug)]
pub struct Identifier {
    pub token: Token,
    pub value: String,
}

/// A node that yields a value.
#[derive(Debug)]
pub enum Expression {
    Identifier(Identifier),
}

/// `let <name> = <value>;`. The name and the value are absent only in a
/// tree that was put together after a syntax error.
#[derive(Debug)]
pub struct LetStatement {
    pub token: Token,
    pub name: Option<Box<Identifier>>,
    pub value: Option<Box<Expression>>,
}

/// `return <value>;`.
#[derive(Debug)]
pub struct ReturnStatement {
    pub token: Token,
    pub return_value: Option<Box<Expression>>,
}

/// An expression that stands as a statement.
#[derive(Debug)]
pub struct ExpressionStatement {
    pub token: Token,
    pub expression: Option<Box<Expression>>,
}

/// A node that can stand alone as an element of a program.
#[derive(Debug)]
pub enum Statement {
    Let(LetStatement),
    Return(ReturnStatement),
    Expression(ExpressionStatement),
}

/// The root of the tree: the statements of a source text, in order.
#[derive(Debug)]
pub struct Program {
    pub statements: Vec<Box<Statement>>,
}

/// What an `Identifier` stands for.
pub struct IdentifierView {
    pub token: TokenView,
    pub value: Seq<char>,
}

/// What an `Expression` stands for.
pub enum ExpressionView {
    Identifier(IdentifierView),
}

/// What a `LetStatement` stands for.
pub struct LetStatementView {
    pub token: TokenView,
    pub name: Option<IdentifierView>,
    pub value: Option<ExpressionView>,
}

/// What a `ReturnStatement` stands for.
pub struct ReturnStatementView {
    pub token: TokenView,
    pub return_value: Option<ExpressionView>,
}

/// What an `ExpressionStatement` stands for.
pub struct ExpressionStatementView {
    pub token: TokenView,
    pub expression: Option<ExpressionView>,
}

/// What a `Statement` stands for.
pub enum StatementView {
    Let(LetStatementView),
    Return(ReturnStatementView),
    Expression(ExpressionStatementView),
}

/// What a `Program` stands for.
pub struct ProgramView {
    pub statements: Seq<StatementView>,
}

impl IdentifierView {
    pub open spec fn token_literal(self) -> Seq<char> {
        self.token.literal
    }

    /// An identifier renders as its name.
    pub open spec fn render(self) -> Seq<char> {
        self.value
    }
}

impl ExpressionView {
    pub open spec fn token_literal(self) -> Seq<char> {
        match self {
            ExpressionView::Identifier(identifier) => identifier.token_literal(),
        }
    }

    pub open spec fn render(self) -> Seq<char> {
        match self {
            ExpressionView::Identifier(identifier) => identifier.render(),
        }
    }
}

/// The text of an expression that may be absent: nothing where it is.
pub open spec fn render_optional(expression: Option<ExpressionView>) -> Seq<char> {
    match expression {
        Some(expression) => expression.render(),
        None => Seq::empty(),
    }
}

impl LetStatementView {
    pub open spec fn token_literal(self) -> Seq<char> {
        self.token.literal
    }

    /// `let <name> = <value>;`, or the placeholder `let _ = _;` where the
    /// statement has no name.
    pub open spec fn render(self) -> Seq<char> {
        match self.name {
            Some(name) => "let "@ + name.render() + " = "@ + render_optional(self.value) + ";"@,
            None => "let _ = _;"@,
        }
    }
}

impl ReturnStatementView {
    pub open spec fn token_literal(self) -> Seq<char> {
        self.token.literal
    }

    /// A return statement renders as a fixed placeholder, whatever it
    /// returns.
    pub open spec fn render(self) -> Seq<char> {
        "return ...;"@
    }
}

impl ExpressionStatementView {
    pub open spec fn token_literal(self) -> Seq<char> {
        self.token.literal
    }

    /// An expression statement renders as its expression.
    pub open spec fn render(self) -> Seq<char> {
        render_optional(self.expression)
    }
}

impl StatementView {
    pub open spec fn token_literal(self) -> Seq<char> {
        match self {
            StatementView::Let(statement) => statement.token_literal(),
            StatementView::Return(statement) => statement.token_literal(),
            StatementView::Expression(statement) => statement.token_literal(),
        }
    }

    pub open spec fn render(self) -> Seq<char> {
        match self {
            StatementView::Let(statement) => statement.render(),
            StatementView::Return(statement) => statement.render(),
            StatementView::Expression(statement) => statement.render(),
        }
    }
}

/// The texts of `statements`, one after the other with nothing between
/// them.
pub open spec fn render_statements(statements: Seq<StatementView>) -> Seq<char>
    decreases statements.len(),
{
    if statements.len() == 0 {
        Seq::empty()
    } else {
        render_statements(statements.drop_last()) + statements.last().render()
    }
}

impl ProgramView {
    /// The token text of the first statement; nothing for an empty program.
    pub open spec fn token_literal(self) -> Seq<char> {
        if self.statements.len() > 0 {
            self.statements[0].token_literal()
        } else {
            Seq::empty()
        }
    }

    pub open spec fn render(self) -> Seq<char> {
        render_statements(self.statements)
    }
}

impl View for Identifier {
    type V = IdentifierView;

    open spec fn view(&self) -> IdentifierView {
        IdentifierView { token: self.token@, value: self.value@ }
    }
}

impl DeepView for Identifier {
    type V = IdentifierView;

    open spec fn deep_view(&self) -> IdentifierView {
        self@
    }
}

impl View for Expression {
    type V = ExpressionView;

    open spec fn view(&self) -> ExpressionView {
        match self {
            Expression::Identifier(identifier) => ExpressionView::Identifier(identifier@),
        }
    }
}

impl DeepView for Expression {
    type V = ExpressionView;

    open spec fn deep_view(&self) -> ExpressionView {
        self@
    }
}

impl View for LetStatement {
    type V = LetStatementView;

    open spec fn view(&self) -> LetStatementView {
        LetStatementView {
            token: self.token@,
            name: self.name.deep_view(),
            value: self.value.deep_view(),
        }
    }
}

impl View for ReturnStatement {
    type V = ReturnStatementView;

    open spec fn view(&self) -> ReturnStatementView {
        ReturnStatementView { token: self.token@, return_value: self.return_value.deep_view() }
    }
}

impl View for ExpressionStatement {
    type V = ExpressionStatementView;

    open spec fn view(&self) -> ExpressionStatementView {
        ExpressionStatementView { token: self.token@, expression: self.expression.deep_view() }
    }
}

impl View for Statement {
    type V = StatementView;

    open spec fn view(&self) -> StatementView {
        match self {
            Statement::Let(statement) => StatementView::Let(statement@),
            Statement::Return(statement) => StatementView::Return(statement@),
            Statement::Expression(statement) => StatementView::Expression(statement@),
        }
    }
}

impl DeepView for Statement {
    type V = StatementView;

    open spec fn deep_view(&self) -> StatementView {
        self@
    }
}

impl View for Program {
    type V = ProgramView;

    open spec fn view(&self) -> ProgramView {
        ProgramView { statements: self.statements.deep_view() }
    }
}

impl Node for Identifier {
    open spec fn spec_token_literal(&self) -> Seq<char> {
        self@.token_literal()
    }

    open spec fn spec_as_string(&self) -> Seq<char> {
        self@.render()
    }

    fn token_literal(&self) -> (text: String) {
        self.token.literal.clone()
    }

    fn as_string(&self) -> (text: String) {
        self.value.clone()
    }
}

impl Node for Expression {
    open spec fn spec_token_literal(&self) -> Seq<char> {
        self@.token_literal()
    }

    open spec fn spec_as_string(&self) -> Seq<char> {
        self@.render()
    }

    fn token_literal(&self) -> (text: String) {
        match self {
            Expression::Identifier(identifier) => identifier.token_literal(),
        }
    }

    fn as_string(&self) -> (text: String) {
        match self {
            Expression::Identifier(identifier) => identifier.as_string(),
        }
    }
}

impl Node for LetStatement {
    open spec fn spec_token_literal(&self) -> Seq<char> {
        self@.token_literal()
    }

    open spec fn spec_as_string(&self) -> Seq<char> {
        self@.render()
    }

    fn token_literal(&self) -> (text: String) {
        self.token.literal.clone()
    }

    fn as_string(&self) -> (text: String) {
        let mut output = String::new();
        if let Some(name) = &self.name {
            output.append("let ");
            let name_text = name.as_string();
            output.append(name_text.as_str());
            output.append(" = ");
            if let Some(value) = &self.value {
                let value_text = value.as_string();
                output.append(value_text.as_str());
            }
            proof {
                reveal_strlit(";");
                assert(output@.push(';') =~= self@.render());
            }
        } else {
            output.append("let _ = _");
            proof {
                reveal_strlit("let _ = _");
                reveal_strlit("let _ = _;");
                assert(output@.push(';') =~= self@.render());
            }
        }
        push_char(&mut output, ';');
        output
    }
}

impl Node for ReturnStatement {
    open spec fn spec_token_literal(&self) -> Seq<char> {
        self@.token_literal()
    }

    open spec fn spec_as_string(&self) -> Seq<char> {
        self@.render()
    }

    fn token_literal(&self) -> (text: String) {
        self.token.literal.clone()
    }

    fn as_string(&self) -> (text: String) {
        "return ...;".to_string()
    }
}

impl Node for ExpressionStatement {
    open spec fn spec_token_literal(&self) -> Seq<char> {
        self@.token_literal()
    }

    open spec fn spec_as_string(&self) -> Seq<char> {
        self@.render()
    }

    fn token_literal(&self) -> (text: String) {
        self.token.literal.clone()
    }

    fn as_string(&self) -> (text: String) {
        if let Some(expression) = &self.expression {
            expression.as_string()
        } else {
            String::new()
        }
    }
}

impl Node for Statement {
    open spec fn spec_token_literal(&self) -> Seq<char> {
        self@.token_literal()
    }

    open spec fn spec_as_string(&self) -> Seq<char> {
        self@.render()
    }

    fn token_literal(&self) -> (text: String) {
        match self {
            Statement::Let(statement) => statement.token_literal(),
            Statement::Return(statement) => statement.token_literal(),
            Statement::Expression(statement) => statement.token_literal(),
        }
    }

    fn as_string(&self) -> (text: String) {
        match self {
            Statement::Let(statement) => statement.as_string(),
            Statement::Return(statement) => statement.as_string(),
            Statement::Expression(statement) => statement.as_string(),
        }
    }
}

impl Node for Program {
    open spec fn spec_token_literal(&self) -> Seq<char> {
        self@.token_literal()
    }

    open spec fn spec_as_string(&self) -> Seq<char> {
        self@.render()
    }

    fn token_literal(&self) -> (text: String) {
        if self.statements.len() > 0 {
            self.statements[0].token_literal()
        } else {
            String::new()
        }
    }

    fn as_string(&self) -> (text: String) {
        let mut output = String::new();
        let mut i: usize = 0;
        while i < self.statements.len()
            invariant
                i <= self.statements.len(),
                output@ == render_statements(self@.statements.take(i as int)),
            decreases self.statements.len() - i,
        {
            let statement_text = self.statements[i].as_string();
            proof {
                let done = self@.statements.take(i as int);
                let next = self@.statements.take(i + 1);
                assert(next.drop_last() =~= done);
                assert(next.last() == self.statements[i as int]@);
            }
            output.append(statement_text.as_str());
            i += 1;
        }
        proof {
            assert(self@.statements.take(i as int) =~= self@.statements);
        }
        output
    }
}

} // verus!
