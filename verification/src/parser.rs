//! Syntactic analysis: from a sequence of tokens to a program tree.
//!
//! ```text
//! program    := statement* EOF
//! statement  := call ';' | 'let' IDENT '=' expression ';'
//! call       := IDENT '(' expression ')'
//! expression := INTEGER | STRING | IDENT
//! ```

use crate::error::{Error, ErrorKind, ErrorKindView, ErrorView, Position};
use crate::lexer::{
    expected_error, token_views, Literal, LiteralView, Token, TokenKind, TokenKindView, TokenView,
};
use vstd::prelude::*;

verus! {

/// A literal in the source, and where it stands.
#[derive(Debug)]
pub struct NodeLiteral(pub Literal, pub Position);

/// A [`NodeLiteral`] as a mathematical value.
pub ghost struct LiteralNodeView {
    pub value: LiteralView,
    pub position: Position,
}

impl View for NodeLiteral {
    type V = LiteralNodeView;

    open spec fn view(&self) -> LiteralNodeView {
        LiteralNodeView { value: self.0@, position: self.1 }
    }
}

/// A name in the source, and where it stands.
#[derive(Debug)]
pub struct NodeIdentifier(pub String, pub Position);

/// A [`NodeIdentifier`] as a mathematical value.
pub ghost struct IdentifierView {
    pub name: Seq<char>,
    pub position: Position,
}

impl IdentifierView {
    /// The error for a name that was never declared.
    pub open spec fn not_found_error(self) -> ErrorView {
        ErrorView { kind: ErrorKindView::NotFound(self.name), position: self.position }
    }

    /// The error for a name that is declared a second time.
    pub open spec fn already_used_error(self) -> ErrorView {
        ErrorView { kind: ErrorKindView::AlreadyUsed(self.name), position: self.position }
    }
}

impl View for NodeIdentifier {
    type V = IdentifierView;

    open spec fn view(&self) -> IdentifierView {
        IdentifierView { name: self.0@, position: self.1 }
    }
}

impl NodeIdentifier {
    /// The error for this name when it was never declared.
    pub fn make_not_found_error(&self) -> (error: Error)
        ensures
            error@ == self@.not_found_error(),
    {
        Error::new(ErrorKind::NotFound(self.0.clone()), self.1)
    }

    /// The error for this name when it is declared a second time.
    pub fn make_already_used_error(&self) -> (error: Error)
        ensures
            error@ == self@.already_used_error(),
    {
        Error::new(ErrorKind::AlreadyUsed(self.0.clone()), self.1)
    }
}

/// An expression: one literal or one name.
#[derive(Debug)]
pub enum NodeExpression {
    Literal(NodeLiteral),
    Identifer(NodeIdentifier),
}

/// A [`NodeExpression`] as a mathematical value.
pub ghost enum ExpressionView {
    Literal(LiteralNodeView),
    Identifer(IdentifierView),
}

impl View for NodeExpression {
    type V = ExpressionView;

    open spec fn view(&self) -> ExpressionView {
        match self {
            NodeExpression::Literal(literal) => ExpressionView::Literal(literal@),
            NodeExpression::Identifer(identifier) => ExpressionView::Identifer(identifier@),
        }
    }
}

/// A declaration: the name, and the expression that gives its value.
#[derive(Debug)]
pub struct NodeLet {
    pub identifier: NodeIdentifier,
    pub expression: NodeExpression,
}

/// A [`NodeLet`] as a mathematical value.
pub ghost struct LetView {
    pub identifier: IdentifierView,
    pub expression: ExpressionView,
}

impl View for NodeLet {
    type V = LetView;

    open spec fn view(&self) -> LetView {
        LetView { identifier: self.identifier@, expression: self.expression@ }
    }
}

/// A call of a built-in: its name and its one argument.
#[derive(Debug)]
pub struct NodeCall {
    pub identifier: NodeIdentifier,
    pub argument: NodeExpression,
}

/// A [`NodeCall`] as a mathematical value.
pub ghost struct CallView {
    pub identifier: IdentifierView,
    pub argument: ExpressionView,
}

impl View for NodeCall {
    type V = CallView;

    open spec fn view(&self) -> CallView {
        CallView { identifier: self.identifier@, argument: self.argument@ }
    }
}

/// A statement: a declaration or a call.
#[derive(Debug)]
pub enum NodeStatement {
    Let(NodeLet),
    Call(NodeCall),
}

/// A [`NodeStatement`] as a mathematical value.
pub ghost enum StatementView {
    Let(LetView),
    Call(CallView),
}

impl View for NodeStatement {
    type V = StatementView;

    open spec fn view(&self) -> StatementView {
        match self {
            NodeStatement::Let(node) => StatementView::Let(node@),
            NodeStatement::Call(node) => StatementView::Call(node@),
        }
    }
}

/// A program: its statements in the order in which they run.
#[derive(Debug)]
pub struct NodeProgram {
    pub statements: Vec<NodeStatement>,
}

impl View for NodeProgram {
    type V = Seq<StatementView>;

    open spec fn view(&self) -> Seq<StatementView> {
        statement_views(self.statements@)
    }
}

impl Default for NodeProgram {
    /// The program without statements.
    fn default() -> (program: NodeProgram)
        ensures
            program@ == Seq::<StatementView>::empty(),
    {
        let program = NodeProgram { statements: Vec::new() };
        assert(program@ =~= Seq::<StatementView>::empty());
        program
    }
}

/// The views of a sequence of statements, in order.
pub open spec fn statement_views(statements: Seq<NodeStatement>) -> Seq<StatementView> {
    statements.map_values(|statement: NodeStatement| statement@)
}

/// The token at place `i`. Past the end of the sequence stands an end of
/// input at an unknown position.
pub open spec fn token_at(tokens: Seq<TokenView>, i: int) -> TokenView {
    if 0 <= i < tokens.len() {
        tokens[i]
    } else {
        TokenView { kind: TokenKindView::EOF, position: Position::zero() }
    }
}

/// The expression that one token is; or the error that says that it is none.
pub open spec fn expression_of(token: TokenView) -> Result<ExpressionView, ErrorView> {
    match token.kind {
        TokenKindView::Literal(value) => Ok(
            ExpressionView::Literal(LiteralNodeView { value, position: token.position }),
        ),
        TokenKindView::Ident(name) => Ok(
            ExpressionView::Identifer(IdentifierView { name, position: token.position }),
        ),
        _ => Err(expected_error("Literal or Identifier"@, token)),
    }
}

/// The call that begins with the identifier `name` at place `i`:
/// `IDENT '(' expression ')' ';'`.
pub open spec fn call_at(tokens: Seq<TokenView>, i: int, name: Seq<char>) -> Result<
    StatementView,
    ErrorView,
> {
    let identifier = IdentifierView { name, position: token_at(tokens, i).position };
    if token_at(tokens, i + 1).kind != TokenKindView::OpenBracket {
        Err(expected_error(TokenKindView::OpenBracket.debug_text(), token_at(tokens, i + 1)))
    } else {
        match expression_of(token_at(tokens, i + 2)) {
            Err(error) => Err(error),
            Ok(argument) => if token_at(tokens, i + 3).kind != TokenKindView::CloseBracket {
                Err(
                    expected_error(
                        TokenKindView::CloseBracket.debug_text(),
                        token_at(tokens, i + 3),
                    ),
                )
            } else if token_at(tokens, i + 4).kind != TokenKindView::SemiColon {
                Err(
                    expected_error(TokenKindView::SemiColon.debug_text(), token_at(tokens, i + 4)),
                )
            } else {
                Ok(StatementView::Call(CallView { identifier, argument }))
            },
        }
    }
}

/// The declaration that begins with `let` at place `i`:
/// `'let' IDENT '=' expression ';'`.
pub open spec fn let_at(tokens: Seq<TokenView>, i: int) -> Result<StatementView, ErrorView> {
    match token_at(tokens, i + 1).kind {
        TokenKindView::Ident(name) => {
            let identifier = IdentifierView { name, position: token_at(tokens, i + 1).position };
            if token_at(tokens, i + 2).kind != TokenKindView::Equal {
                Err(expected_error(TokenKindView::Equal.debug_text(), token_at(tokens, i + 2)))
            } else {
                match expression_of(token_at(tokens, i + 3)) {
                    Err(error) => Err(error),
                    Ok(expression) => if token_at(tokens, i + 4).kind
                        != TokenKindView::SemiColon {
                        Err(
                            expected_error(
                                TokenKindView::SemiColon.debug_text(),
                                token_at(tokens, i + 4),
                            ),
                        )
                    } else {
                        Ok(StatementView::Let(LetView { identifier, expression }))
                    },
                }
            }
        },
        _ => Err(expected_error("Identifier"@, token_at(tokens, i + 1))),
    }
}

/// The number of tokens that every statement is made of.
pub open spec fn statement_length() -> int {
    5
}

/// The statement that begins at place `i`, which takes up
/// [`statement_length`] tokens; or the first token that does not fit the
/// grammar.
pub open spec fn statement_at(tokens: Seq<TokenView>, i: int) -> Result<StatementView, ErrorView> {
    match token_at(tokens, i).kind {
        TokenKindView::Ident(name) => call_at(tokens, i, name),
        TokenKindView::Let => let_at(tokens, i),
        _ => Err(expected_error("Identifier or Let"@, token_at(tokens, i))),
    }
}

/// The statements from place `i` up to the first end of input, appended to
/// `statements`; or the first error.
pub open spec fn parse_from(
    tokens: Seq<TokenView>,
    i: int,
    statements: Seq<StatementView>,
) -> Result<Seq<StatementView>, ErrorView>
    decreases tokens.len() - i,
{
    if token_at(tokens, i).kind == TokenKindView::EOF {
        Ok(statements)
    } else {
        match statement_at(tokens, i) {
            Err(error) => Err(error),
            Ok(statement) => parse_from(
                tokens,
                i + statement_length(),
                statements.push(statement),
            ),
        }
    }
}

/// The program that a token sequence spells; or the first syntax error.
pub open spec fn parse_tokens(tokens: Seq<TokenView>) -> Result<Seq<StatementView>, ErrorView> {
    parse_from(tokens, 0, Seq::empty())
}

/// The parser reads no token behind an end of input. When the tokens end
/// with an end of input, as those of the lexer do, the statements from a
/// place `i` within them are the same whatever tokens follow.
pub proof fn lemma_parse_stops_at_end(
    tokens: Seq<TokenView>,
    extra: Seq<TokenView>,
    i: int,
    statements: Seq<StatementView>,
)
    requires
        0 <= i < tokens.len(),
        tokens.last().kind == TokenKindView::EOF,
    ensures
        parse_from(tokens + extra, i, statements) == parse_from(tokens, i, statements),
    decreases tokens.len() - i,
{
    let longer = tokens + extra;
    assert forall|j: int| 0 <= j < tokens.len() implies token_at(longer, j) == token_at(
        tokens,
        j,
    ) by {}
    assert(token_at(tokens, tokens.len() - 1).kind == TokenKindView::EOF);
    if token_at(tokens, i).kind != TokenKindView::EOF {
        if statement_at(tokens, i) is Ok {
            assert(i + 4 < tokens.len() - 1);
            lemma_parse_stops_at_end(
                tokens,
                extra,
                i + statement_length(),
                statements.push(statement_at(tokens, i)->Ok_0),
            );
        }
    }
}

/// The program that the lexer's tokens spell does not depend on what might
/// follow the end of input.
pub proof fn lemma_parse_tokens_stops_at_end(tokens: Seq<TokenView>, extra: Seq<TokenView>)
    requires
        tokens.len() >= 1,
        tokens.last().kind == TokenKindView::EOF,
    ensures
        parse_tokens(tokens + extra) == parse_tokens(tokens),
{
    lemma_parse_stops_at_end(tokens, extra, 0, Seq::empty());
}

/// A parser over one token sequence, with its place in it.
pub struct Parser {
    tokens: Vec<Token>,
    index: usize,
}

impl Parser {
    #[verifier::type_invariant]
    spec fn well_formed(&self) -> bool {
        self.index <= self.tokens.len()
    }

    /// The tokens that the parser reads.
    pub closed spec fn tokens(&self) -> Seq<TokenView> {
        token_views(self.tokens@)
    }

    /// How many tokens the parser has taken.
    pub closed spec fn taken(&self) -> int {
        self.index as int
    }

    /// A parser at the first of the given tokens.
    pub fn new(tokens: Vec<Token>) -> (parser: Parser)
        ensures
            parser.tokens() == token_views(tokens@),
            parser.taken() == 0,
    {
        Parser { tokens, index: 0 }
    }

    /// The program that the tokens not yet taken spell, up to the first end
    /// of input; or the first syntax error, at the token that does not fit.
    pub fn parse(self) -> (result: Result<NodeProgram, Error>)
        ensures
            match result {
                Ok(program) => parse_from(self.tokens(), self.taken(), Seq::empty()) == Ok::<
                    Seq<StatementView>,
                    ErrorView,
                >(program@),
                Err(error) => parse_from(self.tokens(), self.taken(), Seq::empty()) == Err::<
                    Seq<StatementView>,
                    ErrorView,
                >(error@),
            },
    {
        let mut parser = self;
        let mut node_root = NodeProgram::default();
        loop
            invariant
                parser.tokens() == self.tokens(),
                parse_from(parser.tokens(), parser.taken(), node_root@) == parse_from(
                    self.tokens(),
                    self.taken(),
                    Seq::empty(),
                ),
            decreases parser.tokens().len() - parser.taken(),
        {
            let next = parser.peek_token();
            if next.kind == TokenKind::EOF {
                return Ok(node_root);
            }
            let ghost before = node_root@;
            match parser.parse_statement() {
                Err(error) => {
                    return Err(error);
                },
                Ok(statement) => {
                    node_root.statements.push(statement);
                    assert(node_root@ =~= before.push(statement@));
                },
            }
        }
    }

    /// One statement, from the place of the parser on.
    fn parse_statement(&mut self) -> (result: Result<NodeStatement, Error>)
        requires
            token_at(old(self).tokens(), old(self).taken()).kind != TokenKindView::EOF,
        ensures
            final(self).tokens() == old(self).tokens(),
            match result {
                Ok(statement) => {
                    &&& statement_at(old(self).tokens(), old(self).taken()) == Ok::<
                        StatementView,
                        ErrorView,
                    >(statement@)
                    &&& final(self).taken() == old(self).taken() + statement_length()
                    &&& final(self).taken() <= final(self).tokens().len()
                },
                Err(error) => statement_at(old(self).tokens(), old(self).taken()) == Err::<
                    StatementView,
                    ErrorView,
                >(error@),
            },
    {
        let token = self.next_token();
        let statement = match token.kind {
            TokenKind::Ident(identifier) => {
                let open = self.next_token();
                match open.expect(TokenKind::OpenBracket) {
                    Err(error) => {
                        return Err(error);
                    },
                    Ok(_) => {},
                }
                let argument = match self.parse_expression() {
                    Err(error) => {
                        return Err(error);
                    },
                    Ok(argument) => argument,
                };
                let call = NodeCall {
                    identifier: NodeIdentifier(identifier, token.position),
                    argument,
                };
                let close = self.next_token();
                match close.expect(TokenKind::CloseBracket) {
                    Err(error) => {
                        return Err(error);
                    },
                    Ok(_) => {},
                }
                NodeStatement::Call(call)
            },
            TokenKind::Let => {
                let identifier = match self.next_token().expect_identifier() {
                    Err(error) => {
                        return Err(error);
                    },
                    Ok(identifier) => identifier,
                };
                let equal = self.next_token();
                match equal.expect(TokenKind::Equal) {
                    Err(error) => {
                        return Err(error);
                    },
                    Ok(_) => {},
                }
                let expression = match self.parse_expression() {
                    Err(error) => {
                        return Err(error);
                    },
                    Ok(expression) => expression,
                };
                NodeStatement::Let(NodeLet { identifier, expression })
            },
            _ => {
                return Err(token.make_expect_error("Identifier or Let"));
            },
        };
        let end = self.next_token();
        match end.expect(TokenKind::SemiColon) {
            Err(error) => Err(error),
            Ok(_) => Ok(statement),
        }
    }

    /// One expression: the next token, which must be a literal or a name.
    fn parse_expression(&mut self) -> (result: Result<NodeExpression, Error>)
        ensures
            final(self).tokens() == old(self).tokens(),
            final(self).taken() == if old(self).taken() < old(self).tokens().len() {
                old(self).taken() + 1
            } else {
                old(self).taken()
            },
            match result {
                Ok(expression) => expression_of(token_at(old(self).tokens(), old(self).taken()))
                    == Ok::<ExpressionView, ErrorView>(expression@),
                Err(error) => expression_of(token_at(old(self).tokens(), old(self).taken()))
                    == Err::<ExpressionView, ErrorView>(error@),
            },
    {
        let token = self.next_token();
        match token.kind {
            TokenKind::Literal(literal) => Ok(
                NodeExpression::Literal(NodeLiteral(literal, token.position)),
            ),
            TokenKind::Ident(identifier) => Ok(
                NodeExpression::Identifer(NodeIdentifier(identifier, token.position)),
            ),
            _ => Err(token.make_expect_error("Literal or Identifier")),
        }
    }

    /// Takes the token at the place of the parser. At the end of the tokens
    /// it takes nothing and gives an end of input.
    fn next_token(&mut self) -> (token: Token)
        ensures
            final(self).tokens() == old(self).tokens(),
            token@ == token_at(old(self).tokens(), old(self).taken()),
            final(self).taken() == if old(self).taken() < old(self).tokens().len() {
                old(self).taken() + 1
            } else {
                old(self).taken()
            },
    {
        let token = self.peek_token();
        proof {
            use_type_invariant(&*self);
        }
        if self.index < self.tokens.len() {
            self.index += 1;
        }
        token
    }

    /// The token at the place of the parser, which stays where it is.
    fn peek_token(&self) -> (token: Token)
        ensures
            token@ == token_at(self.tokens(), self.taken()),
    {
        proof {
            use_type_invariant(self);
        }
        if self.index < self.tokens.len() {
            self.tokens[self.index].clone()
        } else {
            Token::new(TokenKind::EOF, Position::new(0, 0, 0))
        }
    }
}

} // verus!
