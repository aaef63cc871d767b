//! The syntax errors of the language, one variant per way a grammar
//! production can fail. None carries a message: a message is derived from
//! the structured value when a diagnostic is rendered.
use vstd::prelude::*;

use crate::reporting::{make_report, report_of, Col, Line, Position, Region, Report};

verus! {

#[derive(Debug, Clone, Copy, PartialEq, Eq, Structural)]
pub enum Error {
    ParseError(Module),
}

#[derive(Debug, Clone, Copy, PartialEq, Eq, Structural)]
pub enum Module {
    Decl(Decl),
}

#[derive(Debug, Clone, Copy, PartialEq, Eq, Structural)]
pub enum Decl {
    DataName(Name),
    Start(Line, Col),
    BadAnnotation(Expr),
    BadProperty(Property),
    End(Line, Col),
    BadService(Service),
}

#[derive(Debug, Clone, Copy, PartialEq, Eq, Structural)]
pub enum Service {
    BadName(Name),
    BadMethod(Method),
    Start(Line, Col),
    MissingEnd(Line, Col),
}

#[derive(Debug, Clone, Copy, PartialEq, Eq, Structural)]
pub enum Method {
    BadName(Name),
    BadAnnotation(Expr),
    BadParam(Property),
    BadReturnType(Type),
    MissingDef(Line, Col),
    /// The region is that of the method's name.
    MissingParamStart(Region, Line, Col),
    /// The region is that of the method's name.
    MissingParamEnd(Region, Line, Col),
}

#[derive(Debug, Clone, Copy, PartialEq, Eq, Structural)]
pub enum Type {
    BadName(Name),
}

#[derive(Debug, Clone, Copy, PartialEq, Eq, Structural)]
pub enum Property {
    BadName(Name),
    /// The region is that of the property's name.
    BadType(Region, Type),
    BadAnnotation(Expr),
    /// The region is that of the property's name.
    MissingColon(Region, Line, Col),
}

/// A malformed token, as the lexer reports it.
#[derive(Debug, Clone, Copy, PartialEq, Eq, Structural)]
pub enum Token {
    String(Line, Col, Str),
    Number(Line, Col, Number),
    Comment(Comment, Line, Col),
    BadChar(Line, Col, char),
    Eof(Line, Col),
}

impl Token {
    pub open spec fn spec_position(&self) -> Position {
        match self {
            Token::String(line, col, _) => Position { line: *line, col: *col },
            Token::Number(line, col, _) => Position { line: *line, col: *col },
            Token::Comment(_, line, col) => Position { line: *line, col: *col },
            Token::BadChar(line, col, _) => Position { line: *line, col: *col },
            Token::Eof(line, col) => Position { line: *line, col: *col },
        }
    }

    /// Where the malformed token starts.
    pub fn position(&self) -> (r: Position)
        ensures
            r == self.spec_position(),
    {
        match self {
            Token::String(line, col, _) => Position { line: *line, col: *col },
            Token::Number(line, col, _) => Position { line: *line, col: *col },
            Token::Comment(_, line, col) => Position { line: *line, col: *col },
            Token::BadChar(line, col, _) => Position { line: *line, col: *col },
            Token::Eof(line, col) => Position { line: *line, col: *col },
        }
    }
}

#[derive(Debug, Clone, Copy, PartialEq, Eq, Structural)]
pub enum Name {
    BadToken(Token),
    ExpectedName(Line, Col),
}

/// Errors in an annotation's expression.
#[derive(Debug, Clone, Copy, PartialEq, Eq, Structural)]
pub enum Expr {
    BadToken(Token),
    /// A token that cannot start an expression.
    Unexpected(Line, Col),
    /// A list or map that the input ends inside of.
    Endless(Line, Col),
    /// A map with a key but no value before its closing brace.
    MissingValue(Line, Col),
}

#[derive(Debug, Clone, Copy, PartialEq, Eq, Structural)]
pub enum Str {
    Endless,
    StringEscape(Escape),
}

#[derive(Debug, Clone, Copy, PartialEq, Eq, Structural)]
pub enum Comment {
    Start,
}

#[derive(Debug, Clone, Copy, PartialEq, Eq, Structural)]
pub enum Number {
    Bad,
}

#[derive(Debug, Clone, Copy, PartialEq, Eq, Structural)]
pub enum Escape {
    EscapeUnknown,
}

fn at(line: Line, col: Col) -> (r: Position)
    ensures
        r == (Position { line, col }),
{
    Position { line, col }
}

impl Name {
    pub open spec fn spec_position(&self) -> Position {
        match self {
            Name::BadToken(t) => t.spec_position(),
            Name::ExpectedName(line, col) => Position { line: *line, col: *col },
        }
    }

    /// Where the name was expected.
    pub fn position(&self) -> (r: Position)
        ensures
            r == self.spec_position(),
    {
        match self {
            Name::BadToken(t) => t.position(),
            Name::ExpectedName(line, col) => at(*line, *col),
        }
    }
}

impl Expr {
    pub open spec fn spec_position(&self) -> Position {
        match self {
            Expr::BadToken(t) => t.spec_position(),
            Expr::Unexpected(line, col) => Position { line: *line, col: *col },
            Expr::Endless(line, col) => Position { line: *line, col: *col },
            Expr::MissingValue(line, col) => Position { line: *line, col: *col },
        }
    }

    /// Where the expression went wrong.
    pub fn position(&self) -> (r: Position)
        ensures
            r == self.spec_position(),
    {
        match self {
            Expr::BadToken(t) => t.position(),
            Expr::Unexpected(line, col) => at(*line, *col),
            Expr::Endless(line, col) => at(*line, *col),
            Expr::MissingValue(line, col) => at(*line, *col),
        }
    }
}

impl Type {
    pub open spec fn spec_position(&self) -> Position {
        match self {
            Type::BadName(n) => n.spec_position(),
        }
    }

    pub fn position(&self) -> (r: Position)
        ensures
            r == self.spec_position(),
    {
        match self {
            Type::BadName(n) => n.position(),
        }
    }
}

impl Property {
    pub open spec fn spec_position(&self) -> Position {
        match self {
            Property::BadName(n) => n.spec_position(),
            Property::BadType(_, t) => t.spec_position(),
            Property::BadAnnotation(e) => e.spec_position(),
            Property::MissingColon(_, line, col) => Position { line: *line, col: *col },
        }
    }

    /// Where the property went wrong.
    pub fn position(&self) -> (r: Position)
        ensures
            r == self.spec_position(),
    {
        match self {
            Property::BadName(n) => n.position(),
            Property::BadType(_, t) => t.position(),
            Property::BadAnnotation(e) => e.position(),
            Property::MissingColon(_, line, col) => at(*line, *col),
        }
    }
}

impl Method {
    pub open spec fn spec_position(&self) -> Position {
        match self {
            Method::BadName(n) => n.spec_position(),
            Method::BadAnnotation(e) => e.spec_position(),
            Method::BadParam(p) => p.spec_position(),
            Method::BadReturnType(t) => t.spec_position(),
            Method::MissingDef(line, col) => Position { line: *line, col: *col },
            Method::MissingParamStart(_, line, col) => Position { line: *line, col: *col },
            Method::MissingParamEnd(_, line, col) => Position { line: *line, col: *col },
        }
    }

    /// Where the method went wrong.
    pub fn position(&self) -> (r: Position)
        ensures
            r == self.spec_position(),
    {
        match self {
            Method::BadName(n) => n.position(),
            Method::BadAnnotation(e) => e.position(),
            Method::BadParam(p) => p.position(),
            Method::BadReturnType(t) => t.position(),
            Method::MissingDef(line, col) => at(*line, *col),
            Method::MissingParamStart(_, line, col) => at(*line, *col),
            Method::MissingParamEnd(_, line, col) => at(*line, *col),
        }
    }
}

impl Service {
    pub open spec fn spec_position(&self) -> Position {
        match self {
            Service::BadName(n) => n.spec_position(),
            Service::BadMethod(m) => m.spec_position(),
            Service::Start(line, col) => Position { line: *line, col: *col },
            Service::MissingEnd(line, col) => Position { line: *line, col: *col },
        }
    }

    /// Where the service went wrong.
    pub fn position(&self) -> (r: Position)
        ensures
            r == self.spec_position(),
    {
        match self {
            Service::BadName(n) => n.position(),
            Service::BadMethod(m) => m.position(),
            Service::Start(line, col) => at(*line, *col),
            Service::MissingEnd(line, col) => at(*line, *col),
        }
    }
}

impl Decl {
    pub open spec fn spec_position(&self) -> Position {
        match self {
            Decl::DataName(n) => n.spec_position(),
            Decl::Start(line, col) => Position { line: *line, col: *col },
            Decl::BadAnnotation(e) => e.spec_position(),
            Decl::BadProperty(p) => p.spec_position(),
            Decl::End(line, col) => Position { line: *line, col: *col },
            Decl::BadService(s) => s.spec_position(),
        }
    }

    /// Where the declaration went wrong.
    pub fn position(&self) -> (r: Position)
        ensures
            r == self.spec_position(),
    {
        match self {
            Decl::DataName(n) => n.position(),
            Decl::Start(line, col) => at(*line, *col),
            Decl::BadAnnotation(e) => e.position(),
            Decl::BadProperty(p) => p.position(),
            Decl::End(line, col) => at(*line, *col),
            Decl::BadService(s) => s.position(),
        }
    }

    /// The title of the report on this error.
    pub open spec fn spec_title(&self) -> Seq<char> {
        match self {
            Decl::DataName(_) => "DATA DECLARATION"@,
            Decl::Start(_, _) => "DATA DECLARATION"@,
            Decl::BadAnnotation(_) => "BAD ANNOTATION"@,
            Decl::BadProperty(Property::BadName(_)) => "BAD PROPERTY NAME"@,
            Decl::BadProperty(Property::BadType(_, _)) => "BAD PROPERTY TYPE"@,
            Decl::BadProperty(Property::BadAnnotation(_)) => "BAD ANNOTATION"@,
            Decl::BadProperty(Property::MissingColon(_, _, _)) => "MISSING PROPERTY NAME AND TYPE SEPARATOR"@,
            Decl::End(_, _) => "UNEXPECTED END OF DATA DECLARATION"@,
            Decl::BadService(_) => "BAD SERVICE DECLARATION"@,
        }
    }

    /// The sentence of the report on this error.
    pub open spec fn spec_text(&self) -> Seq<char> {
        match self {
            Decl::DataName(_) => "I expected the name of the `data` declaration here."@,
            Decl::Start(_, _) => "I tried to read a declaration, but found no `data` or `service` here."@,
            Decl::BadAnnotation(_) => "I could not read this annotation."@,
            Decl::BadProperty(Property::BadName(_)) => "I expected the name of a property here."@,
            Decl::BadProperty(Property::BadType(_, _)) => "I expected the type of the property here."@,
            Decl::BadProperty(Property::BadAnnotation(_)) => "I could not read this annotation."@,
            Decl::BadProperty(Property::MissingColon(_, _, _)) => "I found a property without a `:` between its name and its type."@,
            Decl::End(_, _) => "I tried to parse a `data` declaration but missed an ending curly brace."@,
            Decl::BadService(_) => "I could not read this `service` declaration."@,
        }
    }

    /// The report on this error: its title, a sentence, and a pointer at
    /// where the declaration went wrong.
    pub fn to_report(&self) -> (r: Report)
        ensures
            report_of(r, self.spec_title(), self.spec_text(), self.spec_position()),
    {
        let p = self.position();
        match self {
            Decl::DataName(_) => make_report(
                "DATA DECLARATION",
                "I expected the name of the `data` declaration here.",
                p,
            ),
            Decl::Start(_, _) => make_report(
                "DATA DECLARATION",
                "I tried to read a declaration, but found no `data` or `service` here.",
                p,
            ),
            Decl::BadAnnotation(_) => make_report(
                "BAD ANNOTATION",
                "I could not read this annotation.",
                p,
            ),
            Decl::BadProperty(Property::BadName(_)) => make_report(
                "BAD PROPERTY NAME",
                "I expected the name of a property here.",
                p,
            ),
            Decl::BadProperty(Property::BadType(_, _)) => make_report(
                "BAD PROPERTY TYPE",
                "I expected the type of the property here.",
                p,
            ),
            Decl::BadProperty(Property::BadAnnotation(_)) => make_report(
                "BAD ANNOTATION",
                "I could not read this annotation.",
                p,
            ),
            Decl::BadProperty(Property::MissingColon(_, _, _)) => make_report(
                "MISSING PROPERTY NAME AND TYPE SEPARATOR",
                "I found a property without a `:` between its name and its type.",
                p,
            ),
            Decl::End(_, _) => make_report(
                "UNEXPECTED END OF DATA DECLARATION",
                "I tried to parse a `data` declaration but missed an ending curly brace.",
                p,
            ),
            Decl::BadService(_) => make_report(
                "BAD SERVICE DECLARATION",
                "I could not read this `service` declaration.",
                p,
            ),
        }
    }
}

impl Module {
    pub open spec fn decl(&self) -> Decl {
        match self {
            Module::Decl(d) => *d,
        }
    }

    pub fn to_report(&self) -> (r: Report)
        ensures
            report_of(r, self.decl().spec_title(), self.decl().spec_text(), self.decl().spec_position()),
    {
        match self {
            Module::Decl(decl) => decl.to_report(),
        }
    }
}

impl Error {
    pub open spec fn decl(&self) -> Decl {
        match self {
            Error::ParseError(m) => m.decl(),
        }
    }

    /// The report on this syntax error.
    pub fn to_report(&self) -> (r: Report)
        ensures
            report_of(r, self.decl().spec_title(), self.decl().spec_text(), self.decl().spec_position()),
    {
        match self {
            Error::ParseError(module) => module.to_report(),
        }
    }
}

} // verus!
