//! The grammar: what a token stream parses to, as statements and as
//! diagnostics. The parser is proved to compute these functions.

use vstd::prelude::*;
use crate::ast::{
    ExpressionStatementView, ExpressionView, IdentifierView, LetStatementView, ProgramView,
    ReturnStatementView, StatementView,
};
use crate::lexer::{
    closes_tokens, eof_token, lemma_semicolon_closes, lemma_tokens_of_concatenation, tokens_from,
};
use crate::token::{TokenType, TokenView};

verus! {

/// The ways in which an expression can begin. A token kind that is
/// registered with one of them starts an expression.
#[derive(Clone, Copy, Debug, PartialEq, Eq, Structural)]
pub enum PrefixParseFn {
    /// The current token is a name, and the expression is that name.
    Identifier,
}

/// The ways in which an expression can go on after its left operand. The
/// grammar has no node for them yet: a registration is kept in the parser's
/// table, and expression parsing does not consult it.
#[derive(Clone, Copy, Debug, PartialEq, Eq, Structural)]
pub enum InfixParseFn {
    /// An operator between two operands.
    Binary,
    /// The argument list of a call.
    Call,
}

/// The token that the parser stands on: the first of the stream, or the
/// end-of-input token when the stream is used up.
pub open spec fn current(tokens: Seq<TokenView>) -> TokenView {
    if tokens.len() > 0 {
        tokens[0]
    } else {
        eof_token()
    }
}

/// The token after the current one.
pub open spec fn peek(tokens: Seq<TokenView>) -> TokenView {
    if tokens.len() > 1 {
        tokens[1]
    } else {
        eof_token()
    }
}

/// The stream after the parser moved on by one token. At the end of the
/// input there is nothing to move past.
pub open spec fn advance(tokens: Seq<TokenView>) -> Seq<TokenView> {
    if tokens.len() > 0 {
        tokens.drop_first()
    } else {
        tokens
    }
}

/// The diagnostic for a token of kind `got` where one of kind `expected` had
/// to follow.
pub open spec fn peek_error_message(expected: TokenType, got: TokenType) -> Seq<char> {
    "expected next token to be "@ + expected.spec_name() + ", got "@ + got.spec_name()
        + " instead"@
}

/// The diagnostic for a token of a kind that cannot begin an expression.
pub open spec fn no_prefix_message(kind: TokenType) -> Seq<char> {
    "no prefix parse function for token kind "@ + kind.spec_name()
}

/// The stream from its first semicolon on; nothing if it has none.
pub open spec fn skip_to_semicolon(tokens: Seq<TokenView>) -> Seq<TokenView>
    decreases tokens.len(),
{
    if current(tokens).token_type == TokenType::Semicolon || current(tokens).token_type
        == TokenType::EOF {
        tokens
    } else {
        skip_to_semicolon(advance(tokens))
    }
}

/// The stream without the semicolon that it begins with, if it begins with
/// one.
pub open spec fn skip_semicolon(tokens: Seq<TokenView>) -> Seq<TokenView> {
    if current(tokens).token_type == TokenType::Semicolon {
        advance(tokens)
    } else {
        tokens
    }
}

/// What parsing an expression gives: the expression unless there is a
/// syntax error, the diagnostics, and the tokens that are left.
pub struct ParsedExpression {
    pub expression: Option<ExpressionView>,
    pub errors: Seq<Seq<char>>,
    pub rest: Seq<TokenView>,
}

/// What parsing a statement gives: the statement unless there is a syntax
/// error, the diagnostics, and the tokens that are left.
pub struct ParsedStatement {
    pub statement: Option<StatementView>,
    pub errors: Seq<Seq<char>>,
    pub rest: Seq<TokenView>,
}

/// What parsing a program gives: the tree and the diagnostics.
pub struct ParsedProgram {
    pub program: ProgramView,
    pub errors: Seq<Seq<char>>,
}

/// The name that the token `token` stands for.
pub open spec fn identifier_of(token: TokenView) -> IdentifierView {
    IdentifierView { token, value: token.literal }
}

/// The expression that `handler` builds from the current token.
pub open spec fn apply_prefix(handler: PrefixParseFn, tokens: Seq<TokenView>) -> Option<
    ExpressionView,
> {
    match handler {
        PrefixParseFn::Identifier => Some(
            ExpressionView::Identifier(identifier_of(current(tokens))),
        ),
    }
}

/// An expression: what the handler registered for the kind of the current
/// token builds, and the stream moves past that token. A kind without a
/// handler is a syntax error, and nothing is consumed.
pub open spec fn parse_expression(
    tokens: Seq<TokenView>,
    prefix_fns: Map<TokenType, PrefixParseFn>,
) -> ParsedExpression {
    let kind = current(tokens).token_type;
    if !prefix_fns.contains_key(kind) {
        ParsedExpression { expression: None, errors: seq![no_prefix_message(kind)], rest: tokens }
    } else {
        match apply_prefix(prefix_fns[kind], tokens) {
            Some(expression) => ParsedExpression {
                expression: Some(expression),
                errors: Seq::empty(),
                rest: advance(tokens),
            },
            None => ParsedExpression { expression: None, errors: Seq::empty(), rest: tokens },
        }
    }
}

/// An expression statement: one expression and the semicolon after it, if
/// there is one.
pub open spec fn parse_expression_statement(
    tokens: Seq<TokenView>,
    prefix_fns: Map<TokenType, PrefixParseFn>,
) -> ParsedStatement {
    let parsed = parse_expression(tokens, prefix_fns);
    match parsed.expression {
        Some(expression) => ParsedStatement {
            statement: Some(
                StatementView::Expression(
                    ExpressionStatementView {
                        token: current(tokens),
                        expression: Some(expression),
                    },
                ),
            ),
            errors: parsed.errors,
            rest: skip_semicolon(parsed.rest),
        },
        None => ParsedStatement { statement: None, errors: parsed.errors, rest: parsed.rest },
    }
}

/// A `let` statement: `let`, a name, `=`, then everything up to and with
/// the next semicolon. The tokens of the value are passed over, and the
/// statement has no value. A missing name or a missing `=` is a syntax
/// error, and the stream stays on the token before the one that is wrong.
pub open spec fn parse_let_statement(tokens: Seq<TokenView>) -> ParsedStatement {
    if peek(tokens).token_type != TokenType::Identifier {
        ParsedStatement {
            statement: None,
            errors: seq![peek_error_message(TokenType::Identifier, peek(tokens).token_type)],
            rest: tokens,
        }
    } else if peek(advance(tokens)).token_type != TokenType::Assign {
        ParsedStatement {
            statement: None,
            errors: seq![
                peek_error_message(TokenType::Assign, peek(advance(tokens)).token_type),
            ],
            rest: advance(tokens),
        }
    } else {
        ParsedStatement {
            statement: Some(
                StatementView::Let(
                    LetStatementView {
                        token: current(tokens),
                        name: Some(identifier_of(peek(tokens))),
                        value: None,
                    },
                ),
            ),
            errors: Seq::empty(),
            rest: skip_semicolon(skip_to_semicolon(advance(advance(advance(tokens))))),
        }
    }
}

/// A `return` statement: `return`, then everything up to and with the next
/// semicolon. The tokens of the value are passed over, and the statement
/// has no value.
pub open spec fn parse_return_statement(tokens: Seq<TokenView>) -> ParsedStatement {
    ParsedStatement {
        statement: Some(
            StatementView::Return(
                ReturnStatementView { token: current(tokens), return_value: None },
            ),
        ),
        errors: Seq::empty(),
        rest: skip_semicolon(skip_to_semicolon(advance(tokens))),
    }
}

/// A statement, by the kind of its first token.
pub open spec fn parse_statement(
    tokens: Seq<TokenView>,
    prefix_fns: Map<TokenType, PrefixParseFn>,
) -> ParsedStatement {
    match current(tokens).token_type {
        TokenType::Let => parse_let_statement(tokens),
        TokenType::Return => parse_return_statement(tokens),
        _ => parse_expression_statement(tokens, prefix_fns),
    }
}

/// Where parsing goes on after a statement: behind the statement, or, after
/// a syntax error, one token past the token that the stream was left on.
pub open spec fn resume_after(parsed: ParsedStatement) -> Seq<TokenView> {
    if parsed.statement is Some {
        parsed.rest
    } else {
        advance(parsed.rest)
    }
}

/// The statement of `parsed` as a sequence: empty after a syntax error.
pub open spec fn statement_of(parsed: ParsedStatement) -> Seq<StatementView> {
    match parsed.statement {
        Some(statement) => seq![statement],
        None => Seq::empty(),
    }
}

/// A program: statement after statement up to the end of the input. A
/// statement with a syntax error leaves its diagnostics and no node.
pub open spec fn parse_program(
    tokens: Seq<TokenView>,
    prefix_fns: Map<TokenType, PrefixParseFn>,
) -> ParsedProgram
    decreases tokens.len(),
{
    if current(tokens).token_type == TokenType::EOF {
        ParsedProgram {
            program: ProgramView { statements: Seq::empty() },
            errors: Seq::empty(),
        }
    } else {
        let first = parse_statement(tokens, prefix_fns);
        proof {
            lemma_statement_consumes(tokens, prefix_fns);
        }
        let others = parse_program(resume_after(first), prefix_fns);
        ParsedProgram {
            program: ProgramView {
                statements: statement_of(first) + others.program.statements,
            },
            errors: first.errors + others.errors,
        }
    }
}

/// Passing over the rest of a statement never adds tokens.
pub proof fn lemma_skip_to_semicolon(tokens: Seq<TokenView>)
    ensures
        skip_to_semicolon(tokens).len() <= tokens.len(),
        current(skip_to_semicolon(tokens)).token_type == TokenType::Semicolon || current(
            skip_to_semicolon(tokens),
        ).token_type == TokenType::EOF,
    decreases tokens.len(),
{
    if !(current(tokens).token_type == TokenType::Semicolon || current(tokens).token_type
        == TokenType::EOF) {
        lemma_skip_to_semicolon(advance(tokens));
    }
}

/// A statement never adds tokens, and before the end of the input parsing
/// goes on with fewer tokens than it began with.
pub proof fn lemma_statement_consumes(
    tokens: Seq<TokenView>,
    prefix_fns: Map<TokenType, PrefixParseFn>,
)
    ensures
        parse_statement(tokens, prefix_fns).rest.len() <= tokens.len(),
        current(tokens).token_type != TokenType::EOF ==> resume_after(
            parse_statement(tokens, prefix_fns),
        ).len() < tokens.len(),
{
    lemma_skip_to_semicolon(advance(tokens));
    lemma_skip_to_semicolon(advance(advance(advance(tokens))));
}

/// Whether no token of `tokens` ends a statement or the input.
pub open spec fn no_terminator(tokens: Seq<TokenView>) -> bool {
    forall|i: int|
        0 <= i < tokens.len() ==> (#[trigger] tokens[i]).token_type != TokenType::Semicolon
            && tokens[i].token_type != TokenType::EOF
}

/// A statement without the semicolon that ends it: `let`, a name, `=` and
/// the tokens of a value; or `return` and the tokens of a value; or one
/// token of a kind that begins an expression.
pub open spec fn is_statement_body(
    tokens: Seq<TokenView>,
    prefix_fns: Map<TokenType, PrefixParseFn>,
) -> bool {
    &&& tokens.len() >= 1
    &&& no_terminator(tokens)
    &&& match tokens[0].token_type {
        TokenType::Let => tokens.len() >= 3 && tokens[1].token_type == TokenType::Identifier
            && tokens[2].token_type == TokenType::Assign,
        TokenType::Return => true,
        kind => tokens.len() == 1 && prefix_fns.contains_key(kind),
    }
}

/// A statement with the semicolon that ends it.
pub open spec fn is_statement(
    tokens: Seq<TokenView>,
    prefix_fns: Map<TokenType, PrefixParseFn>,
) -> bool {
    &&& tokens.len() >= 2
    &&& is_statement_body(tokens.drop_last(), prefix_fns)
    &&& tokens.last().token_type == TokenType::Semicolon
}

/// Whether a statement with this body takes in what follows it up to the
/// next semicolon, so that only its own semicolon or the end of the input
/// may follow it.
pub open spec fn runs_to_semicolon(body: Seq<TokenView>) -> bool {
    current(body).token_type == TokenType::Let || current(body).token_type == TokenType::Return
}

/// A source made of statements. Each ends with its semicolon; an
/// expression statement may leave its semicolon out, and so may the last
/// statement, whatever it is.
pub open spec fn is_statement_list(
    statements: Seq<Seq<TokenView>>,
    prefix_fns: Map<TokenType, PrefixParseFn>,
) -> bool {
    forall|i: int|
        0 <= i < statements.len() ==> is_statement(#[trigger] statements[i], prefix_fns) || (
        is_statement_body(statements[i], prefix_fns) && (i == statements.len() - 1
            || !runs_to_semicolon(statements[i])))
}

/// Tokens without a semicolon among them are passed over, up to the
/// semicolon or the end of the input that follows them.
proof fn lemma_skip_body(body: Seq<TokenView>, after: Seq<TokenView>)
    requires
        no_terminator(body),
        current(after).token_type == TokenType::Semicolon || current(after).token_type
            == TokenType::EOF,
    ensures
        skip_to_semicolon(body + after) == after,
    decreases body.len(),
{
    if body.len() == 0 {
        assert(body + after =~= after);
    } else {
        let others = body.drop_first();
        assert((body + after)[0] == body[0]);
        assert(advance(body + after) =~= others + after);
        assert forall|i: int| 0 <= i < others.len() implies (#[trigger] others[i]).token_type
            != TokenType::Semicolon && others[i].token_type != TokenType::EOF by {
            assert(others[i] == body[i + 1]);
        }
        lemma_skip_body(others, after);
    }
}

/// The body of a statement gives its node and no diagnostic, whatever may
/// follow it, and leaves what follows it without the semicolon that ends
/// the statement.
proof fn lemma_statement_body(
    body: Seq<TokenView>,
    after: Seq<TokenView>,
    prefix_fns: Map<TokenType, PrefixParseFn>,
)
    requires
        is_statement_body(body, prefix_fns),
        runs_to_semicolon(body) ==> current(after).token_type == TokenType::Semicolon || current(
            after,
        ).token_type == TokenType::EOF,
    ensures
        current(body + after).token_type != TokenType::EOF,
        parse_statement(body, prefix_fns).statement is Some,
        parse_statement(body + after, prefix_fns) == (ParsedStatement {
            statement: parse_statement(body, prefix_fns).statement,
            errors: Seq::empty(),
            rest: skip_semicolon(after),
        }),
{
    let tokens = body + after;
    let nothing = Seq::<TokenView>::empty();
    assert(body[0].token_type != TokenType::EOF);
    assert(tokens[0] == body[0]);
    if body[0].token_type == TokenType::Let {
        let value = body.skip(3);
        assert(tokens[1] == body[1] && tokens[2] == body[2]);
        assert(advance(tokens)[1] == tokens[2]);
        assert(advance(body)[1] == body[2]);
        assert(no_terminator(value)) by {
            assert forall|i: int| 0 <= i < value.len() implies (#[trigger] value[i]).token_type
                != TokenType::Semicolon && value[i].token_type != TokenType::EOF by {
                assert(value[i] == body[i + 3]);
            }
        }
        assert(advance(advance(advance(tokens))) =~= value + after);
        assert(advance(advance(advance(body))) =~= value + nothing);
        lemma_skip_body(value, after);
        lemma_skip_body(value, nothing);
    } else if body[0].token_type == TokenType::Return {
        let value = body.skip(1);
        assert(no_terminator(value)) by {
            assert forall|i: int| 0 <= i < value.len() implies (#[trigger] value[i]).token_type
                != TokenType::Semicolon && value[i].token_type != TokenType::EOF by {
                assert(value[i] == body[i + 1]);
            }
        }
        assert(advance(tokens) =~= value + after);
        assert(advance(body) =~= value + nothing);
        lemma_skip_body(value, after);
        lemma_skip_body(value, nothing);
    } else {
        assert(advance(tokens) =~= after);
        assert(advance(body) =~= nothing);
    }
}

/// A statement is parsed the same whatever follows it: it gives its node
/// and no diagnostic, and leaves what follows it.
pub proof fn lemma_statement_alone(
    statement: Seq<TokenView>,
    following: Seq<TokenView>,
    prefix_fns: Map<TokenType, PrefixParseFn>,
)
    requires
        is_statement(statement, prefix_fns),
    ensures
        current(statement + following).token_type != TokenType::EOF,
        parse_statement(statement, prefix_fns).statement is Some,
        parse_statement(statement + following, prefix_fns) == (ParsedStatement {
            statement: parse_statement(statement, prefix_fns).statement,
            errors: Seq::empty(),
            rest: following,
        }),
{
    let body = statement.drop_last();
    let semicolon = seq![statement.last()];
    lemma_statement_body(body, semicolon + following, prefix_fns);
    lemma_statement_body(body, semicolon, prefix_fns);
    assert(statement =~= body + semicolon);
    assert(statement + following =~= body + (semicolon + following));
    assert(advance(semicolon + following) =~= following);
}

/// A source of statements parses to as many statements as it holds, each
/// the node of its statement, and to no diagnostic.
pub proof fn lemma_statement_count(
    statements: Seq<Seq<TokenView>>,
    prefix_fns: Map<TokenType, PrefixParseFn>,
)
    requires
        is_statement_list(statements, prefix_fns),
    ensures
        parse_program(statements.flatten(), prefix_fns).program.statements.len()
            == statements.len(),
        parse_program(statements.flatten(), prefix_fns).errors == Seq::<Seq<char>>::empty(),
        forall|i: int|
            0 <= i < statements.len() ==> Some(
                #[trigger] parse_program(statements.flatten(), prefix_fns).program.statements[i],
            ) == parse_statement(statements[i], prefix_fns).statement,
    decreases statements.len(),
{
    if statements.len() > 0 {
        let first = statements.first();
        let others = statements.drop_first();
        let following = others.flatten();
        assert forall|i: int| 0 <= i < others.len() implies is_statement(
            #[trigger] others[i],
            prefix_fns,
        ) || (is_statement_body(others[i], prefix_fns) && (i == others.len() - 1
            || !runs_to_semicolon(others[i]))) by {
            assert(others[i] == statements[i + 1]);
        }
        if is_statement(first, prefix_fns) {
            lemma_statement_alone(first, following, prefix_fns);
        } else {
            if others.len() > 0 {
                let next = others.first();
                assert(next == statements[1]);
                assert(next.len() >= 1 && next[0].token_type != TokenType::Semicolon) by {
                    if is_statement(next, prefix_fns) {
                        assert(next[0] == next.drop_last()[0]);
                    }
                }
                assert(following[0] == next[0]);
            }
            lemma_statement_body(first, following, prefix_fns);
            lemma_statement_body(first, Seq::empty(), prefix_fns);
            assert(first + Seq::<TokenView>::empty() =~= first);
        }
        lemma_statement_count(others, prefix_fns);
        let parsed = parse_program(statements.flatten(), prefix_fns);
        let rest = parse_program(following, prefix_fns);
        assert(parsed.program.statements =~= seq![parse_statement(first, prefix_fns).statement->0]
            + rest.program.statements);
        assert(parsed.errors =~= Seq::<Seq<char>>::empty());
        assert forall|i: int| 0 <= i < statements.len() implies Some(
            #[trigger] parsed.program.statements[i],
        ) == parse_statement(statements[i], prefix_fns).statement by {
            if i > 0 {
                assert(statements[i] == others[i - 1]);
                assert(parsed.program.statements[i] == rest.program.statements[i - 1]);
            }
        }
    }
}

/// The token streams of `texts`, each scanned alone.
pub open spec fn tokens_of_each(texts: Seq<Seq<u8>>) -> Seq<Seq<TokenView>> {
    Seq::new(texts.len(), |i: int| tokens_from(texts[i], 0))
}

/// A source text cut into the texts of its statements. The tokens of the
/// texts make a source of statements, and each text but the last ends
/// where a token ends: with the semicolon of its statement, or else with a
/// byte that the next text cannot extend.
pub open spec fn is_statement_source(
    texts: Seq<Seq<u8>>,
    prefix_fns: Map<TokenType, PrefixParseFn>,
) -> bool {
    &&& is_statement_list(tokens_of_each(texts), prefix_fns)
    &&& forall|i: int|
        0 <= i < texts.len() - 1 ==> is_statement(tokens_from(#[trigger] texts[i], 0), prefix_fns)
            || closes_tokens(texts[i])
}

/// Texts that end where a token ends have, one after the other, the tokens
/// of each in turn.
pub proof fn lemma_tokens_of_texts(texts: Seq<Seq<u8>>)
    requires
        forall|i: int| 0 <= i < texts.len() - 1 ==> closes_tokens(#[trigger] texts[i]),
    ensures
        tokens_from(texts.flatten(), 0) == tokens_of_each(texts).flatten(),
    decreases texts.len(),
{
    if texts.len() > 0 {
        let first = texts.first();
        let others = texts.drop_first();
        assert(tokens_of_each(texts).drop_first() =~= tokens_of_each(others));
        assert forall|i: int| 0 <= i < others.len() - 1 implies closes_tokens(
            #[trigger] others[i],
        ) by {
            assert(others[i] == texts[i + 1]);
        }
        lemma_tokens_of_texts(others);
        if others.len() > 0 {
            lemma_tokens_of_concatenation(first, others.flatten());
        } else {
            assert(first + others.flatten() =~= first);
            assert(tokens_from(first, 0) + tokens_of_each(others).flatten() =~= tokens_from(
                first,
                0,
            ));
        }
    }
}

/// A source text made of statements parses to as many statements as it
/// holds, each the node of its statement, and to no diagnostic.
pub proof fn lemma_statement_count_of_source(
    texts: Seq<Seq<u8>>,
    prefix_fns: Map<TokenType, PrefixParseFn>,
)
    requires
        is_statement_source(texts, prefix_fns),
    ensures
        parse_program(tokens_from(texts.flatten(), 0), prefix_fns).program.statements.len()
            == texts.len(),
        parse_program(tokens_from(texts.flatten(), 0), prefix_fns).errors == Seq::<
            Seq<char>,
        >::empty(),
        forall|i: int|
            0 <= i < texts.len() ==> Some(
                #[trigger] parse_program(
                    tokens_from(texts.flatten(), 0),
                    prefix_fns,
                ).program.statements[i],
            ) == parse_statement(tokens_from(texts[i], 0), prefix_fns).statement,
{
    assert forall|i: int| 0 <= i < texts.len() - 1 implies closes_tokens(#[trigger] texts[i]) by {
        if is_statement(tokens_from(texts[i], 0), prefix_fns) {
            lemma_semicolon_closes(texts[i], 0);
        }
    }
    lemma_tokens_of_texts(texts);
    lemma_statement_count(tokens_of_each(texts), prefix_fns);
}

/// A `let` whose name is not followed by `=` is reported: the first
/// diagnostic of the program says that `=` was expected, and which kind of
/// token stood there.
pub proof fn lemma_missing_assign_is_reported(
    tokens: Seq<TokenView>,
    prefix_fns: Map<TokenType, PrefixParseFn>,
)
    requires
        current(tokens).token_type == TokenType::Let,
        peek(tokens).token_type == TokenType::Identifier,
        peek(advance(tokens)).token_type != TokenType::Assign,
    ensures
        parse_program(tokens, prefix_fns).program.statements == parse_program(
            advance(advance(tokens)),
            prefix_fns,
        ).program.statements,
        parse_program(tokens, prefix_fns).errors.len() >= 1,
        parse_program(tokens, prefix_fns).errors[0] == peek_error_message(
            TokenType::Assign,
            peek(advance(tokens)).token_type,
        ),
{
    let others = parse_program(advance(advance(tokens)), prefix_fns);
    assert(parse_program(tokens, prefix_fns).program.statements =~= others.program.statements);
}

} // verus!
