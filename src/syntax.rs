//! Source positions and the parsed statement tree that the indexer consumes.
use vstd::prelude::*;

verus! {

/// A zero-based (line, column) position in a source file.
#[derive(Debug, Clone, Copy, PartialEq, Eq, Structural)]
pub struct Position {
    pub line: u64,
    pub character: u64,
}

impl Position {
    /// Lexicographic order on (line, column).
    pub open spec fn le(self, other: Position) -> bool {
        self.line < other.line || (self.line == other.line && self.character <= other.character)
    }

    pub fn new(line: u64, character: u64) -> (r: Position)
        ensures
            r.line == line,
            r.character == character,
    {
        Position { line, character }
    }

    pub fn is_at_or_before(&self, other: &Position) -> (r: bool)
        ensures
            r == self.le(*other),
    {
        self.line < other.line || (self.line == other.line && self.character <= other.character)
    }
}

/// The extent of an identifier: `end` is `start` moved right by the
/// identifier's length, on the same line.
#[derive(Debug, Clone, Copy, PartialEq, Eq, Structural)]
pub struct Range {
    pub start: Position,
    pub end: Position,
}

/// The range of an identifier `name` that starts at `start`.
pub open spec fn identifier_range(name: Seq<char>, start: Position) -> Range {
    let end_col = if start.character + name.len() <= u64::MAX {
        (start.character + name.len()) as u64
    } else {
        u64::MAX
    };
    Range { start, end: Position { line: start.line, character: end_col } }
}

impl Range {
    pub open spec fn contains(self, p: Position) -> bool {
        self.start.le(p) && p.le(self.end)
    }

    pub fn from_identifier(name: &String, start: Position) -> (r: Range)
        ensures
            r == identifier_range(name@, start),
    {
        let len = name.as_str().unicode_len();
        let end_col: u64 = if start.character <= u64::MAX - len as u64 {
            start.character + len as u64
        } else {
            u64::MAX
        };
        Range { start, end: Position { line: start.line, character: end_col } }
    }

    pub fn contains_position(&self, position: Position) -> (r: bool)
        ensures
            r == self.contains(position),
    {
        self.start.is_at_or_before(&position) && position.is_at_or_before(&self.end)
    }
}

/// An expression, reduced to what the indexer reads: identifiers, string
/// literals and calls. Every other kind of expression is `Other`.
#[derive(Debug)]
pub enum Expr {
    Identifier { name: String, start: Position },
    StringLiteral { value: String },
    Call { function: Box<Expr>, args: Vec<Expr>, keywords: Vec<Keyword> },
    Other,
}

/// A keyword argument `name = value`; `name` is absent for `**kwargs`.
#[derive(Debug)]
pub struct Keyword {
    pub name: Option<String>,
    pub value: Expr,
}

/// A statement. `FunctionDef::start` is the position of the function's
/// name, after the `def` keyword.
#[derive(Debug)]
pub enum Stmt {
    FunctionDef { name: String, start: Position, body: Vec<Stmt> },
    Assign { targets: Vec<Expr>, value: Expr },
    Expression { expression: Expr },
    Other,
}

} // verus!
