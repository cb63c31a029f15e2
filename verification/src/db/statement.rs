//! Statements with their parameters.

use vstd::prelude::*;

verus! {

/// A parameter of a statement.
#[derive(Debug, PartialEq, Eq)]
pub enum Param {
    Null,
    Int(i64),
    Text(String),
}

/// A statement and the parameters for its placeholders `?1`, `?2` and so on.
#[derive(Debug, PartialEq, Eq)]
pub struct Statement {
    pub sql: String,
    pub params: Vec<Param>,
}

/// What a parameter holds.
pub ghost enum Bound {
    Null,
    Int(i64),
    Text(Seq<char>),
}

/// What a statement holds.
#[verifier::ext_equal]
pub ghost struct Command {
    pub sql: Seq<char>,
    pub params: Seq<Bound>,
}

impl View for Param {
    type V = Bound;

    open spec fn view(&self) -> Bound {
        match self {
            Param::Null => Bound::Null,
            Param::Int(n) => Bound::Int(*n),
            Param::Text(s) => Bound::Text(s@),
        }
    }
}

/// What a sequence of parameters holds.
pub open spec fn bounds(params: Seq<Param>) -> Seq<Bound> {
    params.map(|_i: int, p: Param| p@)
}

impl View for Statement {
    type V = Command;

    open spec fn view(&self) -> Command {
        Command { sql: self.sql@, params: bounds(self.params@) }
    }
}

/// What a sequence of statements holds.
pub open spec fn commands(statements: Seq<Statement>) -> Seq<Command> {
    statements.map(|_i: int, s: Statement| s@)
}

/// The parameter for a text that may be missing.
pub open spec fn bound_opt(text: Option<Seq<char>>) -> Bound {
    match text {
        Some(s) => Bound::Text(s),
        None => Bound::Null,
    }
}

impl Param {
    /// Makes a parameter of a text.
    pub fn text(s: &str) -> (r: Param)
        ensures
            r@ == Bound::Text(s@),
    {
        Param::Text(s.to_owned())
    }

    /// Makes a parameter of a text that may be missing.
    pub fn opt(s: Option<&str>) -> (r: Param)
        ensures
            r@ == bound_opt(
                match s {
                    Some(t) => Some(t@),
                    None => None,
                },
            ),
    {
        match s {
            Some(t) => Param::Text(t.to_owned()),
            None => Param::Null,
        }
    }
}

impl Statement {
    /// Makes a statement.
    pub fn new(sql: &str, params: Vec<Param>) -> (r: Statement)
        ensures
            r@ == (Command { sql: sql@, params: bounds(params@) }),
    {
        Statement { sql: sql.to_owned(), params }
    }
}

}
