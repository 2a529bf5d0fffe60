//! The parser: it pulls tokens from a lexer, two at a time, and builds the
//! tree that the grammar describes, collecting diagnostics as it goes.

use vstd::prelude::*;
use vstd::string::StringExecFns;
use crate::ast::{
    Expression, ExpressionStatement, Identifier, LetStatement, Program, ReturnStatement,
    Statement, StatementView,
};
use crate::grammar::{
    advance, apply_prefix, current, lemma_statement_consumes, parse_expression,
    parse_expression_statement, parse_let_statement, parse_program, parse_return_statement,
    parse_statement, peek, peek_error_message, skip_semicolon, skip_to_semicolon, statement_of,
    InfixParseFn, PrefixParseFn,
};
use crate::lexer::{
    eof_token, lemma_eof_is_final, lemma_next_token, next_position, next_token_at,
    position_after, tokens_from, Lexer,
};
use crate::token::{lemma_index_identifies_kind, Token, TokenType, TokenView, KIND_COUNT};

verus! {

/// How tightly an operator binds, from the loosest to the tightest.
#[derive(PartialOrd, PartialEq, Debug, Copy, Clone)]
pub enum Precedence {
    Lowest,
    Equals,
    LessGreater,
    Sum,
    Product,
    Prefix,
    Call,
}

/// What a table of handlers maps each token kind to: the handler at the
/// place of the kind, where there is one.
pub open spec fn table_map<F>(table: Seq<Option<F>>) -> Map<TokenType, F> {
    Map::new(
        |kind: TokenType| table[kind.spec_index()] is Some,
        |kind: TokenType| table[kind.spec_index()]->0,
    )
}

/// A parser over the tokens of one lexer.
pub struct Parser<'a> {
    lexer: Lexer<'a>,
    current_token: Token,
    peek_token: Token,
    errors: Vec<String>,
    prefix_parse_fns: Vec<Option<PrefixParseFn>>,
    infix_parse_fns: Vec<Option<InfixParseFn>>,
}

/// What a `Parser` stands for: the tokens that it has yet to parse, the
/// current one first, the diagnostics that it has collected, and its two
/// tables of handlers.
pub struct ParserView {
    pub tokens: Seq<TokenView>,
    pub errors: Seq<Seq<char>>,
    pub prefix_fns: Map<TokenType, PrefixParseFn>,
    pub infix_fns: Map<TokenType, InfixParseFn>,
}

impl<'a> View for Parser<'a> {
    type V = ParserView;

    closed spec fn view(&self) -> ParserView {
        ParserView {
            tokens: if self.current_token.token_type == TokenType::EOF {
                Seq::empty()
            } else if self.peek_token.token_type == TokenType::EOF {
                seq![self.current_token@]
            } else {
                seq![self.current_token@, self.peek_token@] + tokens_from(
                    self.lexer.input(),
                    self.lexer.position(),
                )
            },
            errors: self.errors.deep_view(),
            prefix_fns: table_map(self.prefix_parse_fns@),
            infix_fns: table_map(self.infix_parse_fns@),
        }
    }
}

impl<'a> Parser<'a> {
    /// The two buffered tokens and the lexer agree on where the input ends,
    /// and each table has a place for every token kind.
    pub closed spec fn wf(&self) -> bool {
        &&& self.lexer.wf()
        &&& self.prefix_parse_fns@.len() == KIND_COUNT
        &&& self.infix_parse_fns@.len() == KIND_COUNT
        &&& self.current_token.token_type == TokenType::EOF ==> self.current_token@
            == eof_token() && self.peek_token.token_type == TokenType::EOF
        &&& self.peek_token.token_type == TokenType::EOF ==> self.peek_token@ == eof_token()
        &&& self.peek_token.token_type == TokenType::EOF ==> next_token_at(
            self.lexer.input(),
            self.lexer.position(),
        ).token_type == TokenType::EOF
    }

    /// The two buffered tokens are the first two of the stream.
    proof fn lemma_buffered_tokens(&self)
        requires
            self.wf(),
        ensures
            current(self@.tokens) == self.current_token@,
            peek(self@.tokens) == self.peek_token@,
    {
    }

    /// A parser over the tokens that `lexer` has yet to return. Names are
    /// registered as the one way to begin an expression.
    pub fn new(lexer: Lexer<'a>) -> (parser: Self)
        requires
            lexer.wf(),
        ensures
            parser.wf(),
            parser@ == (ParserView {
                tokens: tokens_from(lexer.input(), lexer.position()),
                errors: Seq::empty(),
                prefix_fns: Map::empty().insert(TokenType::Identifier, PrefixParseFn::Identifier),
                infix_fns: Map::empty(),
            }),
    {
        let mut lexer = lexer;
        let ghost input = lexer.input();
        let ghost start = lexer.position();
        proof {
            lemma_next_token(input, start);
            lemma_next_token(input, next_position(input, start));
            lemma_eof_stays(input, start);
            lemma_eof_stays(input, next_position(input, start));
        }
        let current_token = lexer.next_token();
        let peek_token = lexer.next_token();
        let mut parser = Parser {
            lexer,
            current_token,
            peek_token,
            errors: Vec::new(),
            prefix_parse_fns: Self::empty_table(),
            infix_parse_fns: Self::empty_table(),
        };
        proof {
            assert(parser@.errors =~= Seq::empty());
            assert(parser@.prefix_fns =~= Map::empty());
            assert(parser@.infix_fns =~= Map::empty());
            let second = next_position(input, start);
            assert(tokens_from(input, second) =~= if next_token_at(input, second).token_type
                == TokenType::EOF {
                Seq::empty()
            } else {
                seq![next_token_at(input, second)] + tokens_from(
                    input,
                    next_position(input, second),
                )
            });
            assert(parser@.tokens =~= tokens_from(input, start));
        }
        parser.register_prefix(TokenType::Identifier, PrefixParseFn::Identifier);
        parser
    }

    /// A table with a place for every token kind and no handler in any.
    fn empty_table<F>() -> (table: Vec<Option<F>>)
        ensures
            table@.len() == KIND_COUNT,
            forall|i: int| 0 <= i < KIND_COUNT ==> table@[i] is None,
    {
        let mut table: Vec<Option<F>> = Vec::new();
        while table.len() < KIND_COUNT
            invariant
                table@.len() <= KIND_COUNT,
                forall|i: int| 0 <= i < table@.len() ==> table@[i] is None,
            decreases KIND_COUNT - table@.len(),
        {
            table.push(None);
        }
        table
    }

    /// The expression that the current token is as a name. The parser stays
    /// on the token.
    fn parse_identifier_as_expression_prefix(parser: &mut Parser<'a>) -> (expression: Option<
        Box<Expression>,
    >)
        requires
            old(parser).wf(),
        ensures
            final(parser).wf(),
            final(parser)@ == old(parser)@,
            expression.deep_view() == apply_prefix(PrefixParseFn::Identifier, old(parser)@.tokens),
    {
        Some(
            Box::new(
                Expression::Identifier(
                    Identifier {
                        token: parser.current_token.clone(),
                        value: parser.current_token.literal.clone(),
                    },
                ),
            ),
        )
    }

    /// Moves on by one token: the token after the current one becomes the
    /// current one, and the lexer supplies the one after it.
    pub fn next_token(&mut self)
        requires
            old(self).wf(),
        ensures
            final(self).wf(),
            final(self)@ == (ParserView { tokens: advance(old(self)@.tokens), ..old(self)@ }),
    {
        let ghost input = self.lexer.input();
        let ghost position = self.lexer.position();
        proof {
            lemma_next_token(input, position);
            lemma_eof_stays(input, position);
        }
        core::mem::swap(&mut self.current_token, &mut self.peek_token);
        self.peek_token = self.lexer.next_token();
        proof {
            assert(self@.tokens =~= advance(old(self)@.tokens));
        }
    }

    /// Parses the tokens that are left, statement by statement, to the end
    /// of the input. A statement with a syntax error adds its diagnostics
    /// and no node, and parsing goes on one token further.
    pub fn parse_program(&mut self) -> (program: Program)
        requires
            old(self).wf(),
        ensures
            final(self).wf(),
            program@ == parse_program(old(self)@.tokens, old(self)@.prefix_fns).program,
            final(self)@ == (ParserView {
                tokens: Seq::empty(),
                errors: old(self)@.errors + parse_program(
                    old(self)@.tokens,
                    old(self)@.prefix_fns,
                ).errors,
                ..old(self)@
            }),
    {
        let mut program = Program { statements: Vec::new() };
        let ghost whole = parse_program(self@.tokens, self@.prefix_fns);
        let ghost prefix_fns = self@.prefix_fns;
        let ghost mut new_errors: Seq<Seq<char>> = Seq::empty();
        proof {
            assert(program@.statements =~= Seq::empty());
            assert(self@.errors + new_errors =~= self@.errors);
        }
        while !self.current_token_is(TokenType::EOF)
            invariant
                self.wf(),
                self@.prefix_fns == prefix_fns,
                self@.infix_fns == old(self)@.infix_fns,
                self@.errors == old(self)@.errors + new_errors,
                whole.program.statements == program@.statements + parse_program(
                    self@.tokens,
                    prefix_fns,
                ).program.statements,
                whole.errors == new_errors + parse_program(self@.tokens, prefix_fns).errors,
            decreases self@.tokens.len(),
        {
            let ghost tokens = self@.tokens;
            let ghost done = program@.statements;
            let ghost first = parse_statement(tokens, prefix_fns);
            proof {
                lemma_statement_consumes(tokens, prefix_fns);
            }
            match self.parse_statement() {
                Some(statement) => {
                    program.statements.push(statement);
                    proof {
                        assert(program@.statements =~= done.push(first.statement->0));
                    }
                },
                None => {
                    self.next_token();
                },
            }
            proof {
                let others = parse_program(self@.tokens, prefix_fns);
                assert(program@.statements + others.program.statements =~= done + (statement_of(
                    first,
                ) + others.program.statements));
                assert((new_errors + first.errors) + others.errors =~= new_errors + (first.errors
                    + others.errors));
                assert(old(self)@.errors + (new_errors + first.errors) =~= (old(self)@.errors
                    + new_errors) + first.errors);
                new_errors = new_errors + first.errors;
            }
        }
        proof {
            assert(program@.statements + Seq::<StatementView>::empty() =~= program@.statements);
            assert(new_errors + Seq::<Seq<char>>::empty() =~= new_errors);
            assert(self@.tokens =~= Seq::empty());
        }
        program
    }

    /// The diagnostics collected so far, oldest first.
    pub fn errors(&self) -> (errors: &Vec<String>)
        ensures
            errors.deep_view() == self@.errors,
    {
        &self.errors
    }

    /// Records that a token of kind `expected_token` had to follow and the
    /// next token is of another kind.
    fn peek_error(&mut self, expected_token: &TokenType)
        requires
            old(self).wf(),
        ensures
            final(self).wf(),
            final(self)@ == (ParserView {
                errors: old(self)@.errors.push(
                    peek_error_message(*expected_token, peek(old(self)@.tokens).token_type),
                ),
                ..old(self)@
            }),
    {
        let mut message = "expected next token to be ".to_string();
        message.append(expected_token.name());
        message.append(", got ");
        message.append(self.peek_token.token_type.name());
        message.append(" instead");
        self.record(message);
    }

    /// Appends one diagnostic.
    fn record(&mut self, message: String)
        requires
            old(self).wf(),
        ensures
            final(self).wf(),
            final(self)@ == (ParserView {
                errors: old(self)@.errors.push(message@),
                ..old(self)@
            }),
    {
        self.errors.push(message);
        proof {
            assert(self@.errors =~= old(self)@.errors.push(message@));
        }
    }

    /// Parses one statement, by the kind of the current token.
    fn parse_statement(&mut self) -> (statement: Option<Box<Statement>>)
        requires
            old(self).wf(),
        ensures
            final(self).wf(),
            statement.deep_view() == parse_statement(
                old(self)@.tokens,
                old(self)@.prefix_fns,
            ).statement,
            final(self)@ == (ParserView {
                tokens: parse_statement(old(self)@.tokens, old(self)@.prefix_fns).rest,
                errors: old(self)@.errors + parse_statement(
                    old(self)@.tokens,
                    old(self)@.prefix_fns,
                ).errors,
                ..old(self)@
            }),
    {
        match self.current_token.token_type {
            TokenType::Let => self.parse_let_statement(),
            TokenType::Return => self.parse_return_statement(),
            _ => self.parse_expression_statement(),
        }
    }

    /// Moves to the semicolon that ends the statement, and past it.
    fn skip_statement_rest(&mut self)
        requires
            old(self).wf(),
        ensures
            final(self).wf(),
            final(self)@ == (ParserView {
                tokens: skip_semicolon(skip_to_semicolon(old(self)@.tokens)),
                ..old(self)@
            }),
    {
        while !self.current_token_is(TokenType::Semicolon) && !self.current_token_is(
            TokenType::EOF,
        )
            invariant
                self.wf(),
                skip_to_semicolon(self@.tokens) == skip_to_semicolon(old(self)@.tokens),
                self@ == (ParserView { tokens: self@.tokens, ..old(self)@ }),
            decreases self@.tokens.len(),
        {
            self.next_token();
        }
        if self.current_token_is(TokenType::Semicolon) {
            self.next_token();
        }
    }

    /// Parses a `return` statement. The tokens of the value are passed
    /// over.
    fn parse_return_statement(&mut self) -> (statement: Option<Box<Statement>>)
        requires
            old(self).wf(),
        ensures
            final(self).wf(),
            statement.deep_view() == parse_return_statement(old(self)@.tokens).statement,
            final(self)@ == (ParserView {
                tokens: parse_return_statement(old(self)@.tokens).rest,
                errors: old(self)@.errors + parse_return_statement(old(self)@.tokens).errors,
                ..old(self)@
            }),
    {
        let token = self.current_token.clone();
        proof {
            assert(self@.errors + Seq::<Seq<char>>::empty() =~= self@.errors);
        }
        self.next_token();
        self.skip_statement_rest();
        Some(Box::new(Statement::Return(ReturnStatement { token, return_value: None })))
    }

    /// Parses a `let` statement. The tokens of the value are passed over.
    fn parse_let_statement(&mut self) -> (statement: Option<Box<Statement>>)
        requires
            old(self).wf(),
        ensures
            final(self).wf(),
            statement.deep_view() == parse_let_statement(old(self)@.tokens).statement,
            final(self)@ == (ParserView {
                tokens: parse_let_statement(old(self)@.tokens).rest,
                errors: old(self)@.errors + parse_let_statement(old(self)@.tokens).errors,
                ..old(self)@
            }),
    {
        let token = self.current_token.clone();
        proof {
            assert(self@.errors + Seq::<Seq<char>>::empty() =~= self@.errors);
            assert forall|message: Seq<char>| self@.errors + seq![message] =~= self@.errors.push(
                message,
            ) by {}
        }
        if !self.expect_peek(TokenType::Identifier) {
            return None;
        }
        let name = Identifier {
            token: self.current_token.clone(),
            value: self.current_token.literal.clone(),
        };
        proof {
            self.lemma_buffered_tokens();
        }
        if !self.expect_peek(TokenType::Assign) {
            return None;
        }
        self.next_token();
        self.skip_statement_rest();
        Some(
            Box::new(
                Statement::Let(LetStatement { token, name: Some(Box::new(name)), value: None }),
            ),
        )
    }

    /// Parses an expression statement: one expression, and the semicolon
    /// after it if there is one.
    fn parse_expression_statement(&mut self) -> (statement: Option<Box<Statement>>)
        requires
            old(self).wf(),
        ensures
            final(self).wf(),
            statement.deep_view() == parse_expression_statement(
                old(self)@.tokens,
                old(self)@.prefix_fns,
            ).statement,
            final(self)@ == (ParserView {
                tokens: parse_expression_statement(old(self)@.tokens, old(self)@.prefix_fns).rest,
                errors: old(self)@.errors + parse_expression_statement(
                    old(self)@.tokens,
                    old(self)@.prefix_fns,
                ).errors,
                ..old(self)@
            }),
    {
        let stmt_token = self.current_token.clone();
        let expression = self.parse_expression(Precedence::Lowest);
        if let Some(expr) = expression {
            let stmt = ExpressionStatement { token: stmt_token, expression: Some(expr) };
            if self.current_token_is(TokenType::Semicolon) {
                self.next_token();
            }
            Some(Box::new(Statement::Expression(stmt)))
        } else {
            None
        }
    }

    /// Parses one expression: the handler registered for the kind of the
    /// current token builds it, and the parser moves past that token.
    fn parse_expression(&mut self, _precedence: Precedence) -> (expression: Option<
        Box<Expression>,
    >)
        requires
            old(self).wf(),
        ensures
            final(self).wf(),
            expression.deep_view() == parse_expression(
                old(self)@.tokens,
                old(self)@.prefix_fns,
            ).expression,
            final(self)@ == (ParserView {
                tokens: parse_expression(old(self)@.tokens, old(self)@.prefix_fns).rest,
                errors: old(self)@.errors + parse_expression(
                    old(self)@.tokens,
                    old(self)@.prefix_fns,
                ).errors,
                ..old(self)@
            }),
    {
        proof {
            assert(self@.errors + Seq::<Seq<char>>::empty() =~= self@.errors);
            assert forall|message: Seq<char>| self@.errors + seq![message] =~= self@.errors.push(
                message,
            ) by {}
        }
        let prefix_fn_option = self.prefix_parse_fns[self.current_token.token_type.index()];
        let expression_node = match prefix_fn_option {
            Some(p_fn) => match p_fn {
                PrefixParseFn::Identifier => Self::parse_identifier_as_expression_prefix(self),
            },
            None => {
                let mut message = "no prefix parse function for token kind ".to_string();
                message.append(self.current_token.token_type.name());
                self.record(message);
                return None;
            },
        };
        let expression_node = match expression_node {
            Some(node) => node,
            None => {
                return None;
            },
        };
        self.next_token();
        Some(expression_node)
    }

    /// Whether the current token is of the given kind.
    fn current_token_is(&self, token_type: TokenType) -> (yes: bool)
        requires
            self.wf(),
        ensures
            yes == (current(self@.tokens).token_type == token_type),
    {
        self.current_token.token_type == token_type
    }

    /// Whether the token after the current one is of the given kind.
    fn peek_token_is(&self, token_type: &TokenType) -> (yes: bool)
        requires
            self.wf(),
        ensures
            yes == (peek(self@.tokens).token_type == *token_type),
    {
        proof {
            lemma_next_token(self.lexer.input(), self.lexer.position());
        }
        self.peek_token.token_type == *token_type
    }

    /// Moves on if the next token is of the given kind; records a
    /// diagnostic and stays otherwise.
    fn expect_peek(&mut self, token_type: TokenType) -> (found: bool)
        requires
            old(self).wf(),
        ensures
            final(self).wf(),
            found == (peek(old(self)@.tokens).token_type == token_type),
            found ==> final(self)@ == (ParserView {
                tokens: advance(old(self)@.tokens),
                ..old(self)@
            }),
            !found ==> final(self)@ == (ParserView {
                errors: old(self)@.errors.push(
                    peek_error_message(token_type, peek(old(self)@.tokens).token_type),
                ),
                ..old(self)@
            }),
    {
        if self.peek_token_is(&token_type) {
            self.next_token();
            true
        } else {
            self.peek_error(&token_type);
            false
        }
    }

    /// Makes `func` the way in which a token of kind `token_type` begins an
    /// expression, in place of any earlier registration for the kind.
    pub fn register_prefix(&mut self, token_type: TokenType, func: PrefixParseFn)
        requires
            old(self).wf(),
        ensures
            final(self).wf(),
            final(self)@ == (ParserView {
                prefix_fns: old(self)@.prefix_fns.insert(token_type, func),
                ..old(self)@
            }),
    {
        self.prefix_parse_fns.set(token_type.index(), Some(func));
        proof {
            assert forall|kind: TokenType| #[trigger]
                kind.spec_index() == token_type.spec_index() implies kind == token_type by {
                lemma_index_identifies_kind(kind, token_type);
            }
            assert(self@.prefix_fns =~= old(self)@.prefix_fns.insert(token_type, func));
        }
    }

    /// Records `func` as the way in which a token of kind `token_type`
    /// continues an expression, in place of any earlier registration for the
    /// kind.
    pub fn register_infix(&mut self, token_type: TokenType, func: InfixParseFn)
        requires
            old(self).wf(),
        ensures
            final(self).wf(),
            final(self)@ == (ParserView {
                infix_fns: old(self)@.infix_fns.insert(token_type, func),
                ..old(self)@
            }),
    {
        self.infix_parse_fns.set(token_type.index(), Some(func));
        proof {
            assert forall|kind: TokenType| #[trigger]
                kind.spec_index() == token_type.spec_index() implies kind == token_type by {
                lemma_index_identifies_kind(kind, token_type);
            }
            assert(self@.infix_fns =~= old(self)@.infix_fns.insert(token_type, func));
        }
    }
}

/// After the end-of-input token the lexer returns the end-of-input token.
proof fn lemma_eof_stays(input: Seq<u8>, position: int)
    ensures
        next_token_at(input, position).token_type == TokenType::EOF ==> next_token_at(
            input,
            next_position(input, position),
        ) == eof_token(),
{
    if next_token_at(input, position).token_type == TokenType::EOF {
        lemma_eof_is_final(input, position, 1);
        assert(position_after(input, position, 1) == next_position(
            input,
            position_after(input, position, 0),
        ));
    }
}

} // verus!
