//! Lexical analysis: from source text to a sequence of positioned tokens.

use crate::error::{Error, ErrorKind, ErrorKindView, ErrorView, Position};
use crate::parser::{NodeIdentifier, NodeLiteral};
use crate::text::{
    debug_quote, debug_quoted, decimal_text, decimal_value, enclose, is_digit,
    lemma_run_length_bound, parse_decimal, push_decimal, run_end, run_length, substring, to_chars,
    unicode_alphabetic, unicode_whitespace, CharClass,
};
use vstd::prelude::*;

verus! {

/// A literal value of the language.
#[derive(Debug, Eq)]
pub enum Literal {
    Integer(u64),
    String(String),
}

/// A [`Literal`] as a mathematical value.
pub ghost enum LiteralView {
    Integer(u64),
    String(Seq<char>),
}

impl LiteralView {
    /// The literal as `{:?}` prints it.
    pub open spec fn debug_text(self) -> Seq<char> {
        match self {
            LiteralView::Integer(value) => "Integer("@ + decimal_text(value as nat) + ")"@,
            LiteralView::String(text) => "String("@ + debug_quoted(text) + ")"@,
        }
    }
}

impl View for Literal {
    type V = LiteralView;

    open spec fn view(&self) -> LiteralView {
        match self {
            Literal::Integer(value) => LiteralView::Integer(*value),
            Literal::String(text) => LiteralView::String(text@),
        }
    }
}

impl Clone for Literal {
    /// A copy that holds the same literal.
    fn clone(&self) -> (copy: Literal)
        ensures
            copy@ == self@,
    {
        match self {
            Literal::Integer(value) => Literal::Integer(*value),
            Literal::String(text) => Literal::String(text.clone()),
        }
    }
}

impl PartialEq for Literal {
    /// Whether the two hold the same literal: see `eq_spec`.
    fn eq(&self, other: &Literal) -> (equal: bool) {
        match (self, other) {
            (Literal::Integer(a), Literal::Integer(b)) => *a == *b,
            (Literal::String(a), Literal::String(b)) => *a == *b,
            _ => false,
        }
    }
}

impl vstd::std_specs::cmp::PartialEqSpecImpl for Literal {
    open spec fn obeys_eq_spec() -> bool {
        true
    }

    open spec fn eq_spec(&self, other: &Literal) -> bool {
        self@ == other@
    }
}

/// The kinds of token. `Ignore` stands for white space, comments and line
/// breaks while the lexer runs; no token that it emits has that kind.
#[derive(Debug, Eq)]
pub enum TokenKind {
    Ident(String),
    Let,
    Equal,
    Return,
    SemiColon,
    Literal(Literal),
    OpenBracket,
    CloseBracket,
    Ignore,
    EOF,
}

/// A [`TokenKind`] as a mathematical value.
pub ghost enum TokenKindView {
    Ident(Seq<char>),
    Let,
    Equal,
    Return,
    SemiColon,
    Literal(LiteralView),
    OpenBracket,
    CloseBracket,
    Ignore,
    EOF,
}

impl TokenKindView {
    /// The kind as `{:?}` prints it.
    pub open spec fn debug_text(self) -> Seq<char> {
        match self {
            TokenKindView::Ident(name) => "Ident("@ + debug_quoted(name) + ")"@,
            TokenKindView::Let => "Let"@,
            TokenKindView::Equal => "Equal"@,
            TokenKindView::Return => "Return"@,
            TokenKindView::SemiColon => "SemiColon"@,
            TokenKindView::Literal(literal) => "Literal("@ + literal.debug_text() + ")"@,
            TokenKindView::OpenBracket => "OpenBracket"@,
            TokenKindView::CloseBracket => "CloseBracket"@,
            TokenKindView::Ignore => "Ignore"@,
            TokenKindView::EOF => "EOF"@,
        }
    }
}

impl View for TokenKind {
    type V = TokenKindView;

    open spec fn view(&self) -> TokenKindView {
        match self {
            TokenKind::Ident(name) => TokenKindView::Ident(name@),
            TokenKind::Let => TokenKindView::Let,
            TokenKind::Equal => TokenKindView::Equal,
            TokenKind::Return => TokenKindView::Return,
            TokenKind::SemiColon => TokenKindView::SemiColon,
            TokenKind::Literal(literal) => TokenKindView::Literal(literal@),
            TokenKind::OpenBracket => TokenKindView::OpenBracket,
            TokenKind::CloseBracket => TokenKindView::CloseBracket,
            TokenKind::Ignore => TokenKindView::Ignore,
            TokenKind::EOF => TokenKindView::EOF,
        }
    }
}

impl Clone for TokenKind {
    /// A copy of the same kind, with the same text or value.
    fn clone(&self) -> (copy: TokenKind)
        ensures
            copy@ == self@,
    {
        match self {
            TokenKind::Ident(name) => TokenKind::Ident(name.clone()),
            TokenKind::Let => TokenKind::Let,
            TokenKind::Equal => TokenKind::Equal,
            TokenKind::Return => TokenKind::Return,
            TokenKind::SemiColon => TokenKind::SemiColon,
            TokenKind::Literal(literal) => TokenKind::Literal(literal.clone()),
            TokenKind::OpenBracket => TokenKind::OpenBracket,
            TokenKind::CloseBracket => TokenKind::CloseBracket,
            TokenKind::Ignore => TokenKind::Ignore,
            TokenKind::EOF => TokenKind::EOF,
        }
    }
}

impl PartialEq for TokenKind {
    /// Whether the two are of the same kind, with the same text or value:
    /// see `eq_spec`.
    fn eq(&self, other: &TokenKind) -> (equal: bool) {
        match (self, other) {
            (TokenKind::Ident(a), TokenKind::Ident(b)) => *a == *b,
            (TokenKind::Let, TokenKind::Let) => true,
            (TokenKind::Equal, TokenKind::Equal) => true,
            (TokenKind::Return, TokenKind::Return) => true,
            (TokenKind::SemiColon, TokenKind::SemiColon) => true,
            (TokenKind::Literal(a), TokenKind::Literal(b)) => *a == *b,
            (TokenKind::OpenBracket, TokenKind::OpenBracket) => true,
            (TokenKind::CloseBracket, TokenKind::CloseBracket) => true,
            (TokenKind::Ignore, TokenKind::Ignore) => true,
            (TokenKind::EOF, TokenKind::EOF) => true,
            _ => false,
        }
    }
}

impl vstd::std_specs::cmp::PartialEqSpecImpl for TokenKind {
    open spec fn obeys_eq_spec() -> bool {
        true
    }

    open spec fn eq_spec(&self, other: &TokenKind) -> bool {
        self@ == other@
    }
}

/// A token: its kind and where it stands in the source.
#[derive(Debug)]
pub struct Token {
    pub kind: TokenKind,
    pub position: Position,
}

/// A [`Token`] as a mathematical value.
pub ghost struct TokenView {
    pub kind: TokenKindView,
    pub position: Position,
}

impl View for Token {
    type V = TokenView;

    open spec fn view(&self) -> TokenView {
        TokenView { kind: self.kind@, position: self.position }
    }
}

impl Clone for Token {
    /// A copy of the same kind at the same place.
    fn clone(&self) -> (copy: Token)
        ensures
            copy@ == self@,
    {
        Token { kind: self.kind.clone(), position: self.position }
    }
}

impl Literal {
    /// The literal as `{:?}` prints it.
    pub fn debug_string(&self) -> (text: String)
        ensures
            text@ == self@.debug_text(),
    {
        match self {
            Literal::Integer(value) => {
                let mut text = String::from_str("Integer(");
                push_decimal(&mut text, *value as u128);
                text.append(")");
                text
            },
            Literal::String(inner) => enclose(
                "String(",
                debug_quote(inner.as_str()).as_str(),
                ")",
            ),
        }
    }
}

impl TokenKind {
    /// The kind as `{:?}` prints it.
    pub fn debug_string(&self) -> (text: String)
        ensures
            text@ == self@.debug_text(),
    {
        match self {
            TokenKind::Ident(name) => enclose("Ident(", debug_quote(name.as_str()).as_str(), ")"),
            TokenKind::Let => String::from_str("Let"),
            TokenKind::Equal => String::from_str("Equal"),
            TokenKind::Return => String::from_str("Return"),
            TokenKind::SemiColon => String::from_str("SemiColon"),
            TokenKind::Literal(literal) => enclose(
                "Literal(",
                literal.debug_string().as_str(),
                ")",
            ),
            TokenKind::OpenBracket => String::from_str("OpenBracket"),
            TokenKind::CloseBracket => String::from_str("CloseBracket"),
            TokenKind::Ignore => String::from_str("Ignore"),
            TokenKind::EOF => String::from_str("EOF"),
        }
    }
}

/// The error for a token that stands where `expected` was asked for.
pub open spec fn expected_error(expected: Seq<char>, found: TokenView) -> ErrorView {
    ErrorView {
        kind: ErrorKindView::ExpectedToken(expected, found.kind),
        position: found.position,
    }
}

impl Token {
    /// The token of the given kind at the given place.
    pub fn new(kind: TokenKind, position: Position) -> (token: Token)
        ensures
            token == (Token { kind, position }),
    {
        Token { kind, position }
    }

    /// Succeeds exactly when the token is of the given kind. The error names
    /// that kind as `{:?}` prints it.
    pub fn expect(&self, kind: TokenKind) -> (result: Result<(), Error>)
        ensures
            match result {
                Ok(_) => self@.kind == kind@,
                Err(error) => self@.kind != kind@ && error@ == expected_error(
                    kind@.debug_text(),
                    self@,
                ),
            },
    {
        if self.kind == kind {
            Ok(())
        } else {
            Err(
                Error::new(
                    ErrorKind::ExpectedToken(kind.debug_string(), self.kind.clone()),
                    self.position,
                ),
            )
        }
    }

    /// The identifier that the token is, with the token's position.
    pub fn expect_identifier(self) -> (result: Result<NodeIdentifier, Error>)
        ensures
            match result {
                Ok(node) => self@.kind == TokenKindView::Ident(node@.name) && node@.position
                    == self.position,
                Err(error) => !(self@.kind is Ident) && error@ == expected_error(
                    "Identifier"@,
                    self@,
                ),
            },
    {
        match self.kind {
            TokenKind::Ident(value) => Ok(NodeIdentifier(value, self.position)),
            _ => Err(self.make_expect_error("Identifier")),
        }
    }

    /// The literal that the token is, with the token's position.
    pub fn expect_literal(self) -> (result: Result<NodeLiteral, Error>)
        ensures
            match result {
                Ok(node) => self@.kind == TokenKindView::Literal(node@.value) && node@.position
                    == self.position,
                Err(error) => !(self@.kind is Literal) && error@ == expected_error(
                    "Literal"@,
                    self@,
                ),
            },
    {
        match self.kind {
            TokenKind::Literal(value) => Ok(NodeLiteral(value, self.position)),
            _ => Err(self.make_expect_error("Literal")),
        }
    }

    /// The error that says that `message` was expected where this token
    /// stands.
    pub fn make_expect_error(&self, message: &str) -> (error: Error)
        ensures
            error@ == expected_error(message@, self@),
    {
        Error::new(
            ErrorKind::ExpectedToken(String::from_str(message), self.kind.clone()),
            self.position,
        )
    }
}

/// The views of a sequence of tokens, in order.
pub open spec fn token_views(tokens: Seq<Token>) -> Seq<TokenView> {
    tokens.map_values(|token: Token| token@)
}

/// What stands at one place of the source, and how many characters it takes.
#[allow(inconsistent_fields)]
pub ghost enum Lexeme {
    /// A token of the given kind.
    Token { kind: TokenKindView, length: nat },
    /// White space or a comment: no token.
    Blank { length: nat },
    /// The end of a line: no token, and the next line begins.
    LineBreak,
    /// Nothing that the language knows: the error to report.
    Fault { kind: ErrorKindView, length: nat },
}

/// The token kind of a word: one of the two reserved words, or an identifier.
pub open spec fn word_kind(word: Seq<char>) -> TokenKindView {
    if word == "return"@ {
        TokenKindView::Return
    } else if word == "let"@ {
        TokenKindView::Let
    } else {
        TokenKindView::Ident(word)
    }
}

/// What the first character of a lexeme says that the lexeme is.
#[derive(Debug, Clone, Copy, PartialEq, Eq, Structural)]
pub enum Start {
    /// `;`
    SemiColon,
    /// `(`
    OpenBracket,
    /// `)`
    CloseBracket,
    /// `=`
    Equal,
    /// `#`: a comment, up to the end of the line.
    Comment,
    /// The end of the line.
    LineBreak,
    /// `"`: a string literal, up to the next `"` on the line.
    Quote,
    /// A letter or `_`: a reserved word or an identifier.
    Word,
    /// A digit: an integer literal.
    Number,
    /// White space other than the end of the line.
    Space,
    /// Anything else: no lexeme begins so.
    Stray,
}

/// What a lexeme is that begins with `c`, when `alphabetic` and `whitespace`
/// say whether `c` is a letter and whether it is white space. Where several
/// rules fit, the first one applies.
pub open spec fn start_of(c: char, alphabetic: bool, whitespace: bool) -> Start {
    if c == ';' {
        Start::SemiColon
    } else if c == '(' {
        Start::OpenBracket
    } else if c == ')' {
        Start::CloseBracket
    } else if c == '=' {
        Start::Equal
    } else if c == '#' {
        Start::Comment
    } else if c == '\n' {
        Start::LineBreak
    } else if c == '"' {
        Start::Quote
    } else if alphabetic || c == '_' {
        Start::Word
    } else if is_digit(c) {
        Start::Number
    } else if whitespace {
        Start::Space
    } else {
        Start::Stray
    }
}

/// What a lexeme is that begins with `c`: see [`start_of`].
pub fn classify(c: char, alphabetic: bool, whitespace: bool) -> (start: Start)
    ensures
        start == start_of(c, alphabetic, whitespace),
{
    if c == ';' {
        Start::SemiColon
    } else if c == '(' {
        Start::OpenBracket
    } else if c == ')' {
        Start::CloseBracket
    } else if c == '=' {
        Start::Equal
    } else if c == '#' {
        Start::Comment
    } else if c == '\n' {
        Start::LineBreak
    } else if c == '"' {
        Start::Quote
    } else if alphabetic || c == '_' {
        Start::Word
    } else if '0' <= c && c <= '9' {
        Start::Number
    } else if whitespace {
        Start::Space
    } else {
        Start::Stray
    }
}

/// The lexeme that begins at `src[i]`. Its first character says what it is,
/// and it takes the longest run of characters that fits.
pub open spec fn lexeme_at(src: Seq<char>, i: int) -> Lexeme
    recommends
        0 <= i < src.len(),
{
    let c = src[i];
    match start_of(c, unicode_alphabetic(c), unicode_whitespace(c)) {
        Start::SemiColon => Lexeme::Token { kind: TokenKindView::SemiColon, length: 1 },
        Start::OpenBracket => Lexeme::Token { kind: TokenKindView::OpenBracket, length: 1 },
        Start::CloseBracket => Lexeme::Token { kind: TokenKindView::CloseBracket, length: 1 },
        Start::Equal => Lexeme::Token { kind: TokenKindView::Equal, length: 1 },
        Start::Comment => Lexeme::Blank {
            length: 1 + run_length(src, i + 1, CharClass::LineText),
        },
        Start::LineBreak => Lexeme::LineBreak,
        Start::Quote => {
            let inner = run_length(src, i + 1, CharClass::StringText);
            let close = i + 1 + inner;
            if close < src.len() && src[close] == '"' {
                Lexeme::Token {
                    kind: TokenKindView::Literal(LiteralView::String(src.subrange(i + 1, close))),
                    length: inner + 2,
                }
            } else {
                Lexeme::Fault { kind: ErrorKindView::Unmatched("\""@), length: inner + 1 }
            }
        },
        Start::Word => {
            let length = 1 + run_length(src, i + 1, CharClass::IdentifierPart);
            Lexeme::Token { kind: word_kind(src.subrange(i, i + length)), length }
        },
        Start::Number => {
            let length = 1 + run_length(src, i + 1, CharClass::Digit);
            let digits = src.subrange(i, i + length);
            if decimal_value(digits) <= u64::MAX {
                Lexeme::Token {
                    kind: TokenKindView::Literal(
                        LiteralView::Integer(decimal_value(digits) as u64),
                    ),
                    length,
                }
            } else {
                Lexeme::Fault { kind: ErrorKindView::InvalidToken(digits), length }
            }
        },
        Start::Space => Lexeme::Blank { length: 1 },
        Start::Stray => Lexeme::Fault { kind: ErrorKindView::InvalidToken(seq![c]), length: 1 },
    }
}

/// The position of `length` characters that begin at `line`, `column`.
pub open spec fn span(line: int, column: int, length: int) -> Position {
    Position { line: line as usize, column: column as usize, length: length as usize }
}

/// The token that ends every token sequence. It stands where the last token
/// before it stands, so that a message about it points into the source; with
/// no token before it, its position is unknown.
pub open spec fn end_token(tokens: Seq<TokenView>) -> TokenView {
    TokenView {
        kind: TokenKindView::EOF,
        position: if tokens.len() > 0 {
            tokens.last().position
        } else {
            Position::zero()
        },
    }
}

/// The tokens of `src[i..]`, appended to `tokens`, when `src[i]` stands at
/// `line` and `column`; or the first error.
pub open spec fn scan_from(
    src: Seq<char>,
    i: int,
    line: int,
    column: int,
    tokens: Seq<TokenView>,
) -> Result<Seq<TokenView>, ErrorView>
    decreases src.len() - i,
    via scan_from_decreases
{
    if i < 0 || i >= src.len() {
        Ok(tokens.push(end_token(tokens)))
    } else {
        match lexeme_at(src, i) {
            Lexeme::Token { kind, length } => scan_from(
                src,
                i + length,
                line,
                column + length,
                tokens.push(TokenView { kind, position: span(line, column, length as int) }),
            ),
            Lexeme::Blank { length } => scan_from(src, i + length, line, column + length, tokens),
            Lexeme::LineBreak => scan_from(src, i + 1, line + 1, 0, tokens),
            Lexeme::Fault { kind, length } => Err(
                ErrorView { kind, position: span(line, column, length as int) },
            ),
        }
    }
}

#[via_fn]
proof fn scan_from_decreases(
    src: Seq<char>,
    i: int,
    line: int,
    column: int,
    tokens: Seq<TokenView>,
) {
    if 0 <= i < src.len() {
        lemma_lexeme_length(src, i);
    }
}

/// What holds of every token sequence that the lexer gives: it ends with
/// the end of input, which stands nowhere else in it, and no token in it is
/// of the kind `Ignore`.
pub open spec fn well_formed_tokens(tokens: Seq<TokenView>) -> bool {
    &&& tokens.len() >= 1
    &&& tokens.last().kind == TokenKindView::EOF
    &&& forall|k: int|
        0 <= k < tokens.len() - 1 ==> (#[trigger] tokens[k]).kind != TokenKindView::EOF
            && tokens[k].kind != TokenKindView::Ignore
}

/// The tokens of a source text, the last of them the end of input; or the
/// first lexical error.
pub open spec fn tokenize(src: Seq<char>) -> Result<Seq<TokenView>, ErrorView> {
    scan_from(src, 0, 0, 0, Seq::empty())
}

/// The length of a lexeme: at least one character, and within the text.
pub open spec fn lexeme_length(lexeme: Lexeme) -> nat {
    match lexeme {
        Lexeme::Token { kind, length } => length,
        Lexeme::Blank { length } => length,
        Lexeme::LineBreak => 1,
        Lexeme::Fault { kind, length } => length,
    }
}

/// Every lexeme takes at least one character and ends within the text. A
/// lexeme that is a token is never of the kinds `Ignore` or `EOF`.
pub proof fn lemma_lexeme_length(src: Seq<char>, i: int)
    requires
        0 <= i < src.len(),
    ensures
        1 <= lexeme_length(lexeme_at(src, i)),
        i + lexeme_length(lexeme_at(src, i)) <= src.len(),
        lexeme_at(src, i) matches Lexeme::Token { kind, length } ==> kind
            != TokenKindView::Ignore && kind != TokenKindView::EOF,
{
    lemma_run_length_bound(src, i + 1, CharClass::LineText);
    lemma_run_length_bound(src, i + 1, CharClass::StringText);
    lemma_run_length_bound(src, i + 1, CharClass::IdentifierPart);
    lemma_run_length_bound(src, i + 1, CharClass::Digit);
}

/// A scan that succeeds keeps the tokens that it began with, adds tokens that
/// are neither `Ignore` nor the end of input, and ends with the end of input.
pub proof fn lemma_scan_well_formed(
    src: Seq<char>,
    i: int,
    line: int,
    column: int,
    tokens: Seq<TokenView>,
)
    requires
        0 <= i,
        scan_from(src, i, line, column, tokens) is Ok,
        forall|k: int|
            0 <= k < tokens.len() ==> (#[trigger] tokens[k]).kind != TokenKindView::EOF
                && tokens[k].kind != TokenKindView::Ignore,
    ensures
        well_formed_tokens(scan_from(src, i, line, column, tokens)->Ok_0),
    decreases src.len() - i,
{
    if i < src.len() {
        lemma_lexeme_length(src, i);
        match lexeme_at(src, i) {
            Lexeme::Token { kind, length } => {
                lemma_scan_well_formed(
                    src,
                    i + length,
                    line,
                    column + length,
                    tokens.push(TokenView { kind, position: span(line, column, length as int) }),
                );
            },
            Lexeme::Blank { length } => {
                lemma_scan_well_formed(src, i + length, line, column + length, tokens);
            },
            Lexeme::LineBreak => {
                lemma_scan_well_formed(src, i + 1, line + 1, 0, tokens);
            },
            Lexeme::Fault { kind, length } => {},
        }
    }
}

/// Every token sequence of the lexer ends with the one end of input in it
/// and holds no token of the kind `Ignore`.
pub proof fn lemma_tokenize_well_formed(src: Seq<char>)
    requires
        tokenize(src) is Ok,
    ensures
        well_formed_tokens(tokenize(src)->Ok_0),
{
    lemma_scan_well_formed(src, 0, 0, 0, Seq::empty());
}

/// A lexer over one source text.
pub struct Lexer {
    chars: Vec<char>,
}

impl View for Lexer {
    type V = Seq<char>;

    closed spec fn view(&self) -> Seq<char> {
        self.chars@
    }
}

impl Lexer {
    /// A lexer over the characters of `code`.
    pub fn new(code: &str) -> (lexer: Lexer)
        ensures
            lexer@ == code@,
    {
        Lexer { chars: to_chars(code) }
    }

    /// The tokens of the source, the last of them the end of input; or the
    /// first lexical error, at the place of the text that caused it.
    pub fn parse(self) -> (result: Result<Vec<Token>, Error>)
        ensures
            match result {
                Ok(tokens) => {
                    &&& tokenize(self@) == Ok::<Seq<TokenView>, ErrorView>(token_views(tokens@))
                    &&& well_formed_tokens(token_views(tokens@))
                },
                Err(error) => tokenize(self@) == Err::<Seq<TokenView>, ErrorView>(error@),
            },
    {
        let mut tokens: Vec<Token> = Vec::new();
        let mut index: usize = 0;
        let mut line: usize = 0;
        let mut column: usize = 0;
        assert(token_views(tokens@) =~= Seq::empty());
        while index < self.chars.len()
            invariant
                index <= self.chars.len(),
                line <= index,
                column <= index,
                scan_from(self@, index as int, line as int, column as int, token_views(tokens@))
                    == tokenize(self@),
            decreases self.chars.len() - index,
        {
            let ghost before = token_views(tokens@);
            let (scanned, length) = self.next_token(index);
            let position = Position::new(line, column, length);
            match scanned {
                Err(kind) => {
                    return Err(Error::new(kind, position));
                },
                Ok(TokenKind::Ignore) => {
                    if self.chars[index] == '\n' {
                        line += 1;
                        column = 0;
                    } else {
                        column += length;
                    }
                },
                Ok(kind) => {
                    tokens.push(Token::new(kind, position));
                    column += length;
                    assert(token_views(tokens@) =~= before.push(
                        TokenView { kind: kind@, position },
                    ));
                },
            }
            index += length;
        }
        let ghost before = token_views(tokens@);
        let position = if tokens.len() > 0 {
            tokens[tokens.len() - 1].position
        } else {
            Position::new(0, 0, 0)
        };
        tokens.push(Token::new(TokenKind::EOF, position));
        assert(token_views(tokens@) =~= before.push(end_token(before)));
        proof {
            lemma_tokenize_well_formed(self@);
        }
        Ok(tokens)
    }

    /// The lexeme that begins at `start`, and its length. White space,
    /// comments and line breaks come back as `Ignore`.
    fn next_token(&self, start: usize) -> (scanned: (Result<TokenKind, ErrorKind>, usize))
        requires
            start < self@.len(),
        ensures
            1 <= scanned.1,
            start + scanned.1 <= self@.len(),
            match lexeme_at(self@, start as int) {
                Lexeme::Token { kind, length } => {
                    &&& scanned.0 matches Ok(found)
                    &&& found@ == kind
                    &&& found@ != TokenKindView::Ignore
                    &&& scanned.1 == length
                },
                Lexeme::Blank { length } => {
                    &&& scanned.0 matches Ok(found)
                    &&& found@ == TokenKindView::Ignore
                    &&& scanned.1 == length
                },
                Lexeme::LineBreak => {
                    &&& scanned.0 matches Ok(found)
                    &&& found@ == TokenKindView::Ignore
                    &&& scanned.1 == 1
                },
                Lexeme::Fault { kind, length } => {
                    &&& scanned.0 matches Err(error)
                    &&& error@ == kind
                    &&& scanned.1 == length
                },
            },
    {
        let len = self.chars.len();
        let c = self.chars[start];
        match classify(c, c.is_alphabetic(), c.is_whitespace()) {
            Start::SemiColon => (Ok(TokenKind::SemiColon), 1),
            Start::OpenBracket => (Ok(TokenKind::OpenBracket), 1),
            Start::CloseBracket => (Ok(TokenKind::CloseBracket), 1),
            Start::Equal => (Ok(TokenKind::Equal), 1),
            Start::Comment => {
                let end = run_end(&self.chars, start + 1, CharClass::LineText);
                (Ok(TokenKind::Ignore), end - start)
            },
            Start::LineBreak => (Ok(TokenKind::Ignore), 1),
            Start::Quote => {
                let close = run_end(&self.chars, start + 1, CharClass::StringText);
                if close < len && self.chars[close] == '"' {
                    let text = self.substr(start + 1, close);
                    (Ok(TokenKind::Literal(Literal::String(text))), close + 1 - start)
                } else {
                    (Err(ErrorKind::Unmatched("\"")), close - start)
                }
            },
            Start::Word => {
                let end = run_end(&self.chars, start + 1, CharClass::IdentifierPart);
                let word = self.substr(start, end);
                let kind = if word == String::from_str("return") {
                    TokenKind::Return
                } else if word == String::from_str("let") {
                    TokenKind::Let
                } else {
                    TokenKind::Ident(word)
                };
                (Ok(kind), end - start)
            },
            Start::Number => {
                let end = run_end(&self.chars, start + 1, CharClass::Digit);
                assert forall|k: int| 0 <= k < end - start implies is_digit(
                    #[trigger] self@.subrange(start as int, end as int)[k],
                ) by {}
                match parse_decimal(&self.chars, start, end) {
                    Some(value) => (Ok(TokenKind::Literal(Literal::Integer(value))), end - start),
                    None => (Err(ErrorKind::InvalidToken(self.substr(start, end))), end - start),
                }
            },
            Start::Space => (Ok(TokenKind::Ignore), 1),
            Start::Stray => {
                let text = self.substr(start, start + 1);
                assert(text@ =~= seq![c]);
                (Err(ErrorKind::InvalidToken(text)), 1)
            },
        }
    }

    /// The text of `self[start..end]`.
    fn substr(&self, start: usize, end: usize) -> (text: String)
        requires
            start <= end <= self@.len(),
        ensures
            text@ == self@.subrange(start as int, end as int),
    {
        substring(&self.chars, start, end)
    }
}

} // verus!
