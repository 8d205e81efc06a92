//! Diagnostics: what can go wrong in a compilation, where in the source it
//! went wrong, and how that is shown to a person.

use crate::lexer::{TokenKind, TokenKindView};
use crate::text::{
    debug_quote, debug_quoted, decimal_string, decimal_text, enclose, push_decimal,
    push_repeated, repeated, run_end, run_length, substring, to_chars, CharClass,
};
use crate::Source;
use vstd::prelude::*;

verus! {

/// Where a token stands in the source: the zero-based line and column of its
/// first character, and how many characters it spans. All zero stands for
/// "unknown".
#[derive(Debug, Clone, Copy, PartialEq, Eq, Structural)]
pub struct Position {
    pub line: usize,
    pub column: usize,
    pub length: usize,
}

impl Position {
    /// The position that means "unknown".
    pub open spec fn zero() -> Position {
        Position { line: 0, column: 0, length: 0 }
    }

    /// The position of `length` characters from `line`, `column` on.
    pub fn new(line: usize, column: usize, length: usize) -> (position: Position)
        ensures
            position == (Position { line, column, length }),
    {
        Position { line, column, length }
    }
}

impl Default for Position {
    /// The position that means "unknown".
    fn default() -> (position: Position)
        ensures
            position == Position::zero(),
    {
        Position { line: 0, column: 0, length: 0 }
    }
}

/// The kinds of error, each with the text that its message quotes.
#[derive(Debug, PartialEq, Eq)]
pub enum ErrorKind {
    /// A character that starts no token, or a number too large for 64 bits.
    InvalidToken(String),
    /// What the grammar asked for, and the token that stood there instead.
    ExpectedToken(String, TokenKind),
    /// A name that was never declared.
    NotFound(String),
    /// An expression of a type for which no code can be generated; the
    /// field names the type that was wanted.
    UnexpectedType(&'static str),
    /// A delimiter that was opened and not closed on its line.
    Unmatched(&'static str),
    /// A name that was declared a second time.
    AlreadyUsed(String),
}

/// An [`ErrorKind`] as a mathematical value.
pub ghost enum ErrorKindView {
    InvalidToken(Seq<char>),
    ExpectedToken(Seq<char>, TokenKindView),
    NotFound(Seq<char>),
    UnexpectedType(Seq<char>),
    Unmatched(Seq<char>),
    AlreadyUsed(Seq<char>),
}

impl ErrorKindView {
    /// What the error says, in one line.
    pub open spec fn message(self) -> Seq<char> {
        match self {
            ErrorKindView::InvalidToken(text) => "Invalid token "@ + debug_quoted(text),
            ErrorKindView::ExpectedToken(expected, found) => "Expected "@ + expected
                + " got token '"@ + found.debug_text() + "'"@,
            ErrorKindView::NotFound(name) => "Could not find "@ + name,
            ErrorKindView::UnexpectedType(wanted) => "Expected a "@ + wanted,
            ErrorKindView::Unmatched(delimiter) => "Unmatched "@ + delimiter,
            ErrorKindView::AlreadyUsed(name) => "Already declared "@ + name,
        }
    }
}

impl View for ErrorKind {
    type V = ErrorKindView;

    open spec fn view(&self) -> ErrorKindView {
        match self {
            ErrorKind::InvalidToken(text) => ErrorKindView::InvalidToken(text@),
            ErrorKind::ExpectedToken(expected, found) => ErrorKindView::ExpectedToken(
                expected@,
                found@,
            ),
            ErrorKind::NotFound(name) => ErrorKindView::NotFound(name@),
            ErrorKind::UnexpectedType(wanted) => ErrorKindView::UnexpectedType(wanted@),
            ErrorKind::Unmatched(delimiter) => ErrorKindView::Unmatched(delimiter@),
            ErrorKind::AlreadyUsed(name) => ErrorKindView::AlreadyUsed(name@),
        }
    }
}

impl Clone for ErrorKind {
    /// A copy of the same kind, with the same text.
    fn clone(&self) -> (copy: ErrorKind)
        ensures
            copy@ == self@,
    {
        match self {
            ErrorKind::InvalidToken(text) => ErrorKind::InvalidToken(text.clone()),
            ErrorKind::ExpectedToken(expected, found) => ErrorKind::ExpectedToken(
                expected.clone(),
                found.clone(),
            ),
            ErrorKind::NotFound(name) => ErrorKind::NotFound(name.clone()),
            ErrorKind::UnexpectedType(wanted) => ErrorKind::UnexpectedType(wanted),
            ErrorKind::Unmatched(delimiter) => ErrorKind::Unmatched(delimiter),
            ErrorKind::AlreadyUsed(name) => ErrorKind::AlreadyUsed(name.clone()),
        }
    }
}

impl ErrorKind {
    /// What the error says, in one line.
    pub fn message(&self) -> (text: String)
        ensures
            text@ == self@.message(),
    {
        match self {
            ErrorKind::InvalidToken(token) => {
                let text = enclose("Invalid token ", debug_quote(token.as_str()).as_str(), "");
                proof {
                    reveal_strlit("");
                }
                assert(text@ =~= self@.message());
                text
            },
            ErrorKind::ExpectedToken(expected, found) => {
                let mut text = String::from_str("Expected ");
                text.append(expected.as_str());
                text.append(enclose(" got token '", found.debug_string().as_str(), "'").as_str());
                assert(text@ =~= self@.message());
                text
            },
            ErrorKind::NotFound(name) => {
                let mut text = String::from_str("Could not find ");
                text.append(name.as_str());
                text
            },
            ErrorKind::UnexpectedType(wanted) => {
                let mut text = String::from_str("Expected a ");
                text.append(wanted);
                text
            },
            ErrorKind::Unmatched(delimiter) => {
                let mut text = String::from_str("Unmatched ");
                text.append(delimiter);
                text
            },
            ErrorKind::AlreadyUsed(name) => {
                let mut text = String::from_str("Already declared ");
                text.append(name.as_str());
                text
            },
        }
    }
}

/// An error of one kind at one place in the source.
#[derive(Debug)]
pub struct Error {
    pub kind: ErrorKind,
    pub position: Position,
}

/// An [`Error`] as a mathematical value.
pub ghost struct ErrorView {
    pub kind: ErrorKindView,
    pub position: Position,
}

impl View for Error {
    type V = ErrorView;

    open spec fn view(&self) -> ErrorView {
        ErrorView { kind: self.kind@, position: self.position }
    }
}

impl Clone for Error {
    /// A copy of the same kind at the same place.
    fn clone(&self) -> (copy: Error)
        ensures
            copy@ == self@,
    {
        Error { kind: self.kind.clone(), position: self.position }
    }
}

impl Error {
    /// The error of the given kind at the given place.
    pub fn new(kind: ErrorKind, position: Position) -> (error: Error)
        ensures
            error == (Error { kind, position }),
    {
        Error { kind, position }
    }

    /// The error together with the source that it was found in, ready to be
    /// shown.
    pub fn with_source(&self, source: Source) -> (shown: ErrorWithSource)
        ensures
            shown.error@ == self@,
            shown.source == source,
    {
        ErrorWithSource { error: self.clone(), source }
    }
}

/// Where line `n` of `code` begins, lines counted from zero. A line ends
/// with its `\n`, and the next one begins behind it. A place at or past the
/// end of the text means that the text has no line `n`.
pub open spec fn line_start(code: Seq<char>, n: nat) -> int
    decreases n,
{
    if n == 0 {
        0
    } else {
        let before = line_start(code, (n - 1) as nat);
        before + run_length(code, before, CharClass::LineText) + 1
    }
}

/// Line `n` of `code`, lines counted from zero, without the `\n` that ends it
/// and without a `\r` directly before that `\n`. `None` when the text has
/// fewer lines; what follows the last `\n` is a line only if it is not empty.
pub open spec fn source_line(code: Seq<char>, n: nat) -> Option<Seq<char>> {
    let start = line_start(code, n);
    if start < code.len() {
        let end = start + run_length(code, start, CharClass::LineText);
        if end < code.len() && start < end && code[end - 1] == '\r' {
            Some(code.subrange(start, end - 1))
        } else {
            Some(code.subrange(start, end))
        }
    } else {
        None
    }
}

/// The first lines of a diagnostic: the message, then an arrow to the place.
/// Lines and columns are shown counted from one.
pub open spec fn rendered_header(error: ErrorView, path: Seq<char>) -> Seq<char> {
    let line_number = decimal_text((error.position.line + 1) as nat);
    let column_number = decimal_text((error.position.column + 1) as nat);
    error.kind.message() + "\n"@ + repeated(' ', line_number.len()) + "--> "@ + path + ":"@
        + line_number + ":"@ + column_number + "\n"@
}

/// The last lines of a diagnostic: the line of the source, and under it a
/// caret for each character of the place.
pub open spec fn rendered_excerpt(position: Position, text: Seq<char>) -> Seq<char> {
    let line_number = decimal_text((position.line + 1) as nat);
    " "@ + line_number + " | "@ + text + "\n"@ + repeated(' ', line_number.len()) + "    "@
        + repeated(' ', position.column as nat) + repeated('^', position.length as nat)
}

/// A diagnostic as it is shown: the header, and the excerpt if the source
/// has the line that the error speaks of.
pub open spec fn rendered(error: ErrorView, path: Seq<char>, code: Seq<char>) -> Seq<char> {
    match source_line(code, error.position.line as nat) {
        Some(text) => rendered_header(error, path) + rendered_excerpt(error.position, text),
        None => rendered_header(error, path),
    }
}

/// The lines of a text begin further and further to the right.
pub proof fn lemma_line_start_monotonic(code: Seq<char>, a: nat, b: nat)
    requires
        a <= b,
    ensures
        line_start(code, a) <= line_start(code, b),
    decreases b,
{
    if a < b {
        lemma_line_start_monotonic(code, a, (b - 1) as nat);
    }
}

/// Line `n` of `code`, lines counted from zero: see [`source_line`].
pub fn find_line(code: &str, n: usize) -> (found: Option<String>)
    ensures
        match found {
            Some(text) => source_line(code@, n as nat) == Some(text@),
            None => source_line(code@, n as nat) is None,
        },
{
    let chars = to_chars(code);
    let mut start: usize = 0;
    let mut k: usize = 0;
    loop
        invariant
            chars@ == code@,
            k <= n,
            start == line_start(chars@, k as nat),
            start <= chars.len(),
        decreases n - k,
    {
        if start >= chars.len() {
            proof {
                lemma_line_start_monotonic(chars@, k as nat, n as nat);
            }
            return None;
        }
        let end = run_end(&chars, start, CharClass::LineText);
        if k == n {
            if end < chars.len() && start < end && chars[end - 1] == '\r' {
                return Some(substring(&chars, start, end - 1));
            } else {
                return Some(substring(&chars, start, end));
            }
        }
        if end >= chars.len() {
            proof {
                lemma_line_start_monotonic(chars@, (k + 1) as nat, n as nat);
            }
            return None;
        }
        start = end + 1;
        k += 1;
    }
}

/// An error together with the source that it was found in.
#[derive(Debug)]
pub struct ErrorWithSource {
    pub error: Error,
    pub source: Source,
}

impl ErrorWithSource {
    /// The diagnostic as text: the message, the path with line and column,
    /// and the line of the source with carets under the place. A place that
    /// is not in the source is shown without the line.
    pub fn render(&self) -> (text: String)
        ensures
            text@ == rendered(self.error@, self.source.path@, self.source.code@),
    {
        let position = self.error.position;
        let line_number = decimal_string(position.line as u128 + 1);
        let width = line_number.as_str().unicode_len();
        let mut text = self.error.kind.message();
        text.append("\n");
        push_repeated(&mut text, ' ', width);
        text.append("--> ");
        text.append(self.source.path.as_str());
        text.append(":");
        text.append(line_number.as_str());
        text.append(":");
        push_decimal(&mut text, position.column as u128 + 1);
        text.append("\n");
        assert(text@ =~= rendered_header(self.error@, self.source.path@));
        match find_line(self.source.code.as_str(), position.line) {
            Some(line) => {
                let ghost header = text@;
                text.append(" ");
                text.append(line_number.as_str());
                text.append(" | ");
                text.append(line.as_str());
                text.append("\n");
                push_repeated(&mut text, ' ', width);
                text.append("    ");
                push_repeated(&mut text, ' ', position.column);
                push_repeated(&mut text, '^', position.length);
                assert(text@ =~= header + rendered_excerpt(position, line@));
            },
            None => {},
        }
        text
    }
}

} // verus!
