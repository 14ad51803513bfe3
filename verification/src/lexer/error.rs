//! Errors of lexing and translating MYPS programs.
use vstd::prelude::*;

verus! {

/// A parse-tree node that does not have the inner nodes its kind has.
#[derive(Clone, Copy, PartialEq, Eq, Debug, Structural)]
pub enum AstError {
    /// Fewer inner nodes.
    InsufficientPairs,
    /// More inner nodes.
    ExcessPairs,
}

/// What went wrong. Each variant holds the values that its message names.
#[derive(Debug)]
pub enum MypsLexerError {
    /// A node of an unexpected kind; holds what was expected.
    WrongRule(String),
    /// A line after a block header was not indented further; holds the least indent expected.
    ExpectedIndent(usize),
    /// A line's indent matches no open block; holds the indent expected and the one found.
    WrongIndent(usize, usize),
    MisplacedElif,
    MisplacedElse,
    BranchStatement,
    /// A value of an unexpected kind; holds what was expected.
    FailedConversion(String),
    /// A name that no alias defines.
    UndefinedAlias(String),
    /// A function called with the wrong number of arguments: its kind, the number expected
    /// and the number found.
    WrongNumArgs(String, usize, usize),
    UndefinedFunction(String),
    RedefinedFunction(String),
    NestedFunction(String),
    /// An error met while translating a statement.
    StmtError(String, Box<MypsLexerError>),
    WrongReturn(String),
    /// A construct that translation has no IC10 code for; holds what it is.
    Unsupported(String),
    /// A variable that has no lifetime entry (it was given back); holds its number.
    UndefinedVar(usize),
    /// A translation whose line counts do not fit a machine integer.
    DepthOverflow,
    /// A unit names a variable that register allocation gave no register.
    UnmappedVar,
    /// A jump to the tail of an if-elif-else chain or function that has none; holds its index.
    UndefinedTail(usize),
    /// A parse-tree node with another number of inner nodes than its kind has.
    AstError(AstError),
    /// Text that is not an integer literal; holds the text.
    ParseInt(String),
    /// A number literal without a value; holds its text.
    ParseNum(String),
    Dummy,
}

pub type MypsLexerResult<T> = Result<T, MypsLexerError>;

impl MypsLexerError {
    pub fn wrong_rule(expected: &str) -> (e: Self)
        ensures
            e matches MypsLexerError::WrongRule(s) && s@ == expected@,
    {
        Self::WrongRule(expected.to_owned())
    }

    pub fn undefined_alias(k: &String) -> (e: Self)
        ensures
            e matches MypsLexerError::UndefinedAlias(s) && s@ == k@,
    {
        Self::UndefinedAlias(k.clone())
    }

    pub fn expected_indent(expected: usize) -> (e: Self)
        ensures
            e == MypsLexerError::ExpectedIndent(expected),
    {
        Self::ExpectedIndent(expected)
    }

    pub fn wrong_indent(expected: usize, found: usize) -> (e: Self)
        ensures
            e == MypsLexerError::WrongIndent(expected, found),
    {
        Self::WrongIndent(expected, found)
    }

    pub fn misplaced_elif() -> (e: Self)
        ensures
            e is MisplacedElif,
    {
        Self::MisplacedElif
    }

    pub fn misplaced_else() -> (e: Self)
        ensures
            e is MisplacedElse,
    {
        Self::MisplacedElse
    }

    pub fn branch_statement() -> (e: Self)
        ensures
            e is BranchStatement,
    {
        Self::BranchStatement
    }

    pub fn wrong_num_args(kind: &str, expected: usize, found: usize) -> (e: Self)
        ensures
            e matches MypsLexerError::WrongNumArgs(k, x, f) && k@ == kind@ && x == expected && f
                == found,
    {
        Self::WrongNumArgs(kind.to_owned(), expected, found)
    }

    pub fn undefined_function(name: &String) -> (e: Self)
        ensures
            e matches MypsLexerError::UndefinedFunction(s) && s@ == name@,
    {
        Self::UndefinedFunction(name.clone())
    }

    pub fn redefined_function(name: &String) -> (e: Self)
        ensures
            e matches MypsLexerError::RedefinedFunction(s) && s@ == name@,
    {
        Self::RedefinedFunction(name.clone())
    }

    pub fn nested_function(name: &String) -> (e: Self)
        ensures
            e matches MypsLexerError::NestedFunction(s) && s@ == name@,
    {
        Self::NestedFunction(name.clone())
    }

    pub fn stmt_error(stmt: String, err: MypsLexerError) -> (e: Self)
        ensures
            e matches MypsLexerError::StmtError(s, b) && s == stmt && *b == err,
    {
        Self::StmtError(stmt, Box::new(err))
    }

    pub fn failed_conversion(expected: &str) -> (e: Self)
        ensures
            e matches MypsLexerError::FailedConversion(s) && s@ == expected@,
    {
        Self::FailedConversion(expected.to_owned())
    }

    pub fn unsupported(what: &str) -> (e: Self)
        ensures
            e matches MypsLexerError::Unsupported(s) && s@ == what@,
    {
        Self::Unsupported(what.to_owned())
    }

    pub fn undefined_tail(i: usize) -> (e: Self)
        ensures
            e == MypsLexerError::UndefinedTail(i),
    {
        Self::UndefinedTail(i)
    }
}

} // verus!
