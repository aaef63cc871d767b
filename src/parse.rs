//! The parser: a recursive-descent reading of the lexer's output with one
//! token of lookahead. A declaration that fails to parse is reported, the
//! parser skips to the next declaration keyword, and it goes on, so that one
//! pass reports every malformed declaration.
//!
//! Each production is a spec function over the lexer's items (`*_spec`,
//! or `*_from` for a repetition with what it has read so far) and an
//! executable function proved to compute it.
use vstd::prelude::*;

use crate::ast::source::{
    annotations_view, opt_string_view, properties_view, Annotation, Data, DataView, Decl, DeclView, Expr, ExprView, Method, MethodView, Module, ModuleView,
    Name, NameView, Parameter, ParameterView, Property, PropertyView, Service, ServiceView, Type,
    TypeView,
};
use crate::error::syntax;
use crate::lexer::{
    chars_of, class_end, in_class, lex, lex_spec, push_char, push_range, scan_class, string_of,
    CharClass,
};
use crate::reporting::{Position, Region};
use crate::token::{lex_result_view, LexResult, LexResultView, Token, TokenView};

verus! {

/// The lexer's items as the spec functions read them.
pub open spec fn items(t: &Vec<LexResult>) -> Seq<LexResultView> {
    t@.map_values(|x: LexResult| lex_result_view(x))
}

/// The token at `i`, if it is a well-formed one.
pub open spec fn peek(t: Seq<LexResultView>, i: int) -> Option<TokenView> {
    if 0 <= i < t.len() {
        match t[i] {
            Ok((_, tok)) => Some(tok),
            Err(_) => None,
        }
    } else {
        None
    }
}

/// Takes the item at `i`; the end of input, `Eof` included, gives `None`.
pub open spec fn advance(t: Seq<LexResultView>, i: int) -> (Option<LexResultView>, int) {
    if 0 <= i < t.len() {
        match t[i] {
            Ok((_, TokenView::Eof)) => (None, i + 1),
            item => (Some(item), i + 1),
        }
    } else {
        (None, i)
    }
}

/// Takes the token at `i` if it is `tok`.
pub open spec fn matches_spec(t: Seq<LexResultView>, i: int, tok: TokenView) -> int {
    if peek(t, i) == Some(tok) {
        advance(t, i).1
    } else {
        i
    }
}

/// Takes a token that must be `tok`; on failure, where the input went wrong
/// (`e` is the end of the input).
pub open spec fn expect_token_spec(t: Seq<LexResultView>, e: Position, i: int, tok: TokenView) -> (
    Result<(), Position>,
    int,
) {
    let (a, j) = advance(t, i);
    (
        match a {
            Some(Ok((r, x))) => if x == tok {
                Ok(())
            } else {
                Err(r.end)
            },
            Some(Err(b)) => Err(b.spec_position()),
            None => Err(e),
        },
        j,
    )
}

pub open spec fn expect_name_spec(t: Seq<LexResultView>, e: Position, i: int) -> (
    Result<NameView, syntax::Name>,
    int,
) {
    let (a, j) = advance(t, i);
    (
        match a {
            Some(Ok((r, TokenView::Identifier(s)))) => Ok(NameView { region: r, value: s }),
            Some(Ok((r, _))) => Err(syntax::Name::ExpectedName(r.start.line, r.start.col)),
            Some(Err(b)) => Err(syntax::Name::BadToken(b)),
            None => Err(syntax::Name::BadToken(syntax::Token::Eof(e.line, e.col))),
        },
        j,
    )
}

pub open spec fn is_space(c: char) -> bool {
    in_class(c, CharClass::Space)
}

/// The start of the run of white space that ends at `j`.
pub open spec fn space_start(s: Seq<char>, j: int) -> int
    decreases j,
{
    if 0 < j <= s.len() && is_space(s[j - 1]) {
        space_start(s, j - 1)
    } else {
        j
    }
}

/// `s` without white space at either end.
pub open spec fn trim(s: Seq<char>) -> Seq<char> {
    let lo = class_end(s, 0, CharClass::Space);
    let hi = space_start(s, s.len() as int);
    if lo < hi {
        s.subrange(lo, hi)
    } else {
        Seq::empty()
    }
}

/// A doc comment with one more comment line: lines are trimmed, blank ones
/// dropped, and the rest joined by newlines.
pub open spec fn doc_line(acc: Seq<char>, line: Seq<char>) -> Seq<char> {
    let l = trim(line);
    if l.len() == 0 {
        acc
    } else if acc.len() == 0 {
        l
    } else {
        acc + seq!['\n'] + l
    }
}

pub open spec fn comment_from(t: Seq<LexResultView>, i: int, acc: Seq<char>) -> (Seq<char>, int)
    decreases t.len() - i,
{
    if 0 <= i < t.len() {
        match t[i] {
            Ok((_, TokenView::Comment(c))) => comment_from(t, i + 1, doc_line(acc, c)),
            _ => (acc, i),
        }
    } else {
        (acc, i)
    }
}

/// Reads a run of line comments into a doc comment.
pub open spec fn parse_comment_spec(t: Seq<LexResultView>, i: int) -> (Option<Seq<char>>, int) {
    let (d, j) = comment_from(t, i, Seq::empty());
    (
        if d.len() == 0 {
            None
        } else {
            Some(d)
        },
        j,
    )
}

pub open spec fn parse_expr_spec(t: Seq<LexResultView>, e: Position, i: int) -> (
    Result<ExprView, syntax::Expr>,
    int,
)
    decreases t.len() - i, 0int,
{
    let (a, j) = advance(t, i);
    match a {
        None => (Err(syntax::Expr::Endless(e.line, e.col)), j),
        Some(Err(b)) => (Err(syntax::Expr::BadToken(b)), j),
        Some(Ok((r, tok))) => match tok {
            TokenView::Boolean(b) => (Ok(ExprView::Boolean(r, b)), j),
            TokenView::Number(s) => (Ok(ExprView::Number(r, s)), j),
            TokenView::String(s) => (Ok(ExprView::String(r, s)), j),
            TokenView::Keyword(s) => (Ok(ExprView::Keyword(r, s)), j),
            TokenView::Identifier(s) => (Ok(ExprView::Symbol(r, s)), j),
            TokenView::Symbol(s) => (Ok(ExprView::Symbol(r, s)), j),
            TokenView::LParen => list_from(t, e, j, r, Seq::empty()),
            TokenView::LBrace => dict_from(t, e, j, r, Seq::empty()),
            _ => (Err(syntax::Expr::Unexpected(r.start.line, r.start.col)), j),
        },
    }
}

/// The rest of a list expression opened at `open`.
pub open spec fn list_from(
    t: Seq<LexResultView>,
    e: Position,
    i: int,
    open: Region,
    acc: Seq<ExprView>,
) -> (Result<ExprView, syntax::Expr>, int)
    decreases t.len() - i, 1int,
{
    if !(0 <= i <= t.len()) {
        (Err(syntax::Expr::Endless(e.line, e.col)), i)
    } else if peek(t, i) == Some(TokenView::RParen) {
        match t[i] {
            Ok((r, _)) => (Ok(ExprView::List(Region { start: open.start, end: r.end }, acc)), i + 1),
            Err(_) => (Err(syntax::Expr::Endless(e.line, e.col)), i),
        }
    } else {
        let (x, j) = parse_expr_spec(t, e, i);
        match x {
            Err(err) => (Err(err), j),
            Ok(x) => if i < j <= t.len() {
                list_from(t, e, j, open, acc.push(x))
            } else {
                (Err(syntax::Expr::Endless(e.line, e.col)), j)
            },
        }
    }
}

/// The rest of a map expression opened at `open`: keys and values alternate.
pub open spec fn dict_from(
    t: Seq<LexResultView>,
    e: Position,
    i: int,
    open: Region,
    acc: Seq<(ExprView, ExprView)>,
) -> (Result<ExprView, syntax::Expr>, int)
    decreases t.len() - i, 1int,
{
    if !(0 <= i <= t.len()) {
        (Err(syntax::Expr::Endless(e.line, e.col)), i)
    } else if peek(t, i) == Some(TokenView::RBrace) {
        match t[i] {
            Ok((r, _)) => (Ok(ExprView::Dict(Region { start: open.start, end: r.end }, acc)), i + 1),
            Err(_) => (Err(syntax::Expr::Endless(e.line, e.col)), i),
        }
    } else {
        let (k, j) = parse_expr_spec(t, e, i);
        match k {
            Err(err) => (Err(err), j),
            Ok(k) => if !(i < j <= t.len()) {
                (Err(syntax::Expr::Endless(e.line, e.col)), j)
            } else if peek(t, j) == Some(TokenView::RBrace) {
                match t[j] {
                    Ok((r, _)) => (Err(syntax::Expr::MissingValue(r.start.line, r.start.col)), j),
                    Err(_) => (Err(syntax::Expr::Endless(e.line, e.col)), j),
                }
            } else {
                let (v, m) = parse_expr_spec(t, e, j);
                match v {
                    Err(err) => (Err(err), m),
                    Ok(v) => if j < m <= t.len() {
                        dict_from(t, e, m, open, acc.push((k, v)))
                    } else {
                        (Err(syntax::Expr::Endless(e.line, e.col)), m)
                    },
                }
            },
        }
    }
}

/// A run of annotations `#expr`.
pub open spec fn annotations_from(
    t: Seq<LexResultView>,
    e: Position,
    i: int,
    acc: Seq<ExprView>,
) -> (Result<Seq<ExprView>, syntax::Expr>, int)
    decreases t.len() - i,
{
    if peek(t, i) == Some(TokenView::Hash) {
        let (x, j) = parse_expr_spec(t, e, i + 1);
        match x {
            Err(err) => (Err(err), j),
            Ok(x) => if i < j <= t.len() {
                annotations_from(t, e, j, acc.push(x))
            } else {
                (Ok(acc.push(x)), j)
            },
        }
    } else {
        (Ok(acc), i)
    }
}

pub open spec fn parse_type_spec(t: Seq<LexResultView>, e: Position, i: int) -> (
    Result<TypeView, syntax::Type>,
    int,
)
    decreases t.len() - i, 0int,
{
    let (n, j) = expect_name_spec(t, e, i);
    match n {
        Err(x) => (Err(syntax::Type::BadName(x)), j),
        Ok(name) => if peek(t, j) == Some(TokenView::LParen) && 0 <= i < j {
            let (args, k) = type_args_from(t, e, j + 1, Seq::empty());
            match args {
                Ok(vs) => (Ok(TypeView { name, variables: vs }), k),
                Err(x) => (Err(x), k),
            }
        } else {
            (Ok(TypeView { name, variables: Seq::empty() }), j)
        },
    }
}

/// The rest of a type-argument list: types, commas optional, up to `)`.
pub open spec fn type_args_from(
    t: Seq<LexResultView>,
    e: Position,
    i: int,
    acc: Seq<TypeView>,
) -> (Result<Seq<TypeView>, syntax::Type>, int)
    decreases t.len() - i, 1int,
{
    if !(0 <= i <= t.len()) {
        (Ok(acc), i)
    } else if peek(t, i) == Some(TokenView::RParen) {
        (Ok(acc), i + 1)
    } else {
        let (x, j) = parse_type_spec(t, e, i);
        match x {
            Err(err) => (Err(err), j),
            Ok(ty) => {
                let k = matches_spec(t, j, TokenView::Comma);
                if i < k <= t.len() {
                    type_args_from(t, e, k, acc.push(ty))
                } else {
                    (Ok(acc.push(ty)), k)
                }
            },
        }
    }
}

/// Whether the token at `i` ends a property list.
pub open spec fn ends_properties(t: Seq<LexResultView>, i: int) -> bool {
    match peek(t, i) {
        Some(TokenView::RBrace) | Some(TokenView::RParen) | Some(TokenView::Eof) | None => true,
        _ => false,
    }
}

/// One property `name: Type`, with its doc comment and annotations; `None`
/// where only comments stood before the end of the list.
pub open spec fn parse_property_spec(t: Seq<LexResultView>, e: Position, i: int) -> (
    Result<Option<PropertyView>, syntax::Property>,
    int,
) {
    let (doc, j) = parse_comment_spec(t, i);
    let (anns, k) = annotations_from(t, e, j, Seq::empty());
    match anns {
        Err(x) => (Err(syntax::Property::BadAnnotation(x)), k),
        Ok(anns) => if peek(t, k) matches Some(TokenView::Identifier(_)) {
            let (n, k1) = expect_name_spec(t, e, k);
            match n {
                Err(x) => (Err(syntax::Property::BadName(x)), k1),
                Ok(name) => {
                    let (c, k2) = expect_token_spec(t, e, k1, TokenView::Colon);
                    match c {
                        Err(p) => (Err(syntax::Property::MissingColon(name.region, p.line, p.col)), k2),
                        Ok(_) => {
                            let (ty, k3) = parse_type_spec(t, e, k2);
                            match ty {
                                Err(x) => (Err(syntax::Property::BadType(name.region, x)), k3),
                                Ok(ty) => (
                                    Ok(
                                        Some(
                                            PropertyView {
                                                annotations: anns,
                                                doc_comment: doc,
                                                name,
                                                type_: ty,
                                            },
                                        ),
                                    ),
                                    k3,
                                ),
                            }
                        },
                    }
                },
            }
        } else if ends_properties(t, k) && peek(t, k) is Some {
            (Ok(None), k)
        } else {
            let (n, k1) = expect_name_spec(t, e, k);
            match n {
                Err(x) => (Err(syntax::Property::BadName(x)), k1),
                Ok(_) => (Ok(None), k1),
            }
        },
    }
}

/// A property list, commas optional, up to `}`, `)` or the end of input.
pub open spec fn properties_from(
    t: Seq<LexResultView>,
    e: Position,
    i: int,
    acc: Seq<PropertyView>,
) -> (Result<Seq<PropertyView>, syntax::Property>, int)
    decreases t.len() - i,
{
    if ends_properties(t, i) {
        (Ok(acc), i)
    } else {
        let (p, j) = parse_property_spec(t, e, i);
        match p {
            Err(x) => (Err(x), j),
            Ok(p) => {
                let k = matches_spec(t, j, TokenView::Comma);
                let acc2 = match p {
                    Some(p) => acc.push(p),
                    None => acc,
                };
                if i < k <= t.len() {
                    properties_from(t, e, k, acc2)
                } else {
                    (Ok(acc2), k)
                }
            },
        }
    }
}

/// The rest of a `data` declaration, after its keyword; braces optional.
pub open spec fn parse_data_spec(
    t: Seq<LexResultView>,
    e: Position,
    i: int,
    doc: Option<Seq<char>>,
    anns: Seq<ExprView>,
) -> (Result<DataView, syntax::Decl>, int) {
    let (n, j) = expect_name_spec(t, e, i);
    match n {
        Err(x) => (Err(syntax::Decl::DataName(x)), j),
        Ok(name) => if peek(t, j) == Some(TokenView::LBrace) {
            let (ps, k) = properties_from(t, e, j + 1, Seq::empty());
            match ps {
                Err(x) => (Err(syntax::Decl::BadProperty(x)), k),
                Ok(ps) => {
                    let (c, m) = expect_token_spec(t, e, k, TokenView::RBrace);
                    match c {
                        Err(p) => (Err(syntax::Decl::End(p.line, p.col)), m),
                        Ok(_) => (
                            Ok(DataView { annotations: anns, doc_comment: doc, name, properties: ps }),
                            m,
                        ),
                    }
                },
            }
        } else {
            (
                Ok(
                    DataView {
                        annotations: anns,
                        doc_comment: doc,
                        name,
                        properties: Seq::empty(),
                    },
                ),
                j,
            )
        },
    }
}

pub open spec fn parameter_of(p: PropertyView) -> ParameterView {
    ParameterView { annotations: p.annotations, name: p.name, type_: p.type_ }
}

/// One method `def name(parameters): ReturnType`, return type optional.
pub open spec fn parse_method_spec(t: Seq<LexResultView>, e: Position, i: int) -> (
    Result<MethodView, syntax::Method>,
    int,
) {
    let (doc, j) = parse_comment_spec(t, i);
    let (anns, k) = annotations_from(t, e, j, Seq::empty());
    match anns {
        Err(x) => (Err(syntax::Method::BadAnnotation(x)), k),
        Ok(anns) => {
            let (d, k1) = expect_token_spec(t, e, k, TokenView::Def);
            match d {
                Err(p) => (Err(syntax::Method::MissingDef(p.line, p.col)), k1),
                Ok(_) => {
                    let (n, k2) = expect_name_spec(t, e, k1);
                    match n {
                        Err(x) => (Err(syntax::Method::BadName(x)), k2),
                        Ok(name) => {
                            let (o, k3) = expect_token_spec(t, e, k2, TokenView::LParen);
                            match o {
                                Err(p) => (
                                    Err(syntax::Method::MissingParamStart(name.region, p.line, p.col)),
                                    k3,
                                ),
                                Ok(_) => {
                                    let (ps, k4) = properties_from(t, e, k3, Seq::empty());
                                    match ps {
                                        Err(x) => (Err(syntax::Method::BadParam(x)), k4),
                                        Ok(ps) => {
                                            let (c, k5) = expect_token_spec(t, e, k4, TokenView::RParen);
                                            match c {
                                                Err(p) => (
                                                    Err(
                                                        syntax::Method::MissingParamEnd(
                                                            name.region,
                                                            p.line,
                                                            p.col,
                                                        ),
                                                    ),
                                                    k5,
                                                ),
                                                Ok(_) => {
                                                    let method = |rt: Option<TypeView>|
                                                        MethodView {
                                                            annotations: anns,
                                                            doc_comment: doc,
                                                            name,
                                                            parameters: ps.map_values(
                                                                |p: PropertyView| parameter_of(p),
                                                            ),
                                                            return_type: rt,
                                                        };
                                                    if peek(t, k5) == Some(TokenView::Colon) {
                                                        let (rt, k6) = parse_type_spec(t, e, k5 + 1);
                                                        match rt {
                                                            Err(x) => (
                                                                Err(syntax::Method::BadReturnType(x)),
                                                                k6,
                                                            ),
                                                            Ok(rt) => (Ok(method(Some(rt))), k6),
                                                        }
                                                    } else {
                                                        (Ok(method(None)), k5)
                                                    }
                                                },
                                            }
                                        },
                                    }
                                },
                            }
                        },
                    }
                },
            }
        },
    }
}

/// Methods up to `}` or the end of input.
pub open spec fn methods_from(
    t: Seq<LexResultView>,
    e: Position,
    i: int,
    acc: Seq<MethodView>,
) -> (Result<Seq<MethodView>, syntax::Method>, int)
    decreases t.len() - i,
{
    match peek(t, i) {
        Some(TokenView::RBrace) | Some(TokenView::Eof) | None => (Ok(acc), i),
        _ => {
            let (m, j) = parse_method_spec(t, e, i);
            match m {
                Err(x) => (Err(x), j),
                Ok(m) => if i < j <= t.len() {
                    methods_from(t, e, j, acc.push(m))
                } else {
                    (Ok(acc.push(m)), j)
                },
            }
        },
    }
}

/// The rest of a `service` declaration, after its keyword.
pub open spec fn parse_service_spec(
    t: Seq<LexResultView>,
    e: Position,
    i: int,
    doc: Option<Seq<char>>,
    anns: Seq<ExprView>,
) -> (Result<ServiceView, syntax::Service>, int) {
    let (n, j) = expect_name_spec(t, e, i);
    match n {
        Err(x) => (Err(syntax::Service::BadName(x)), j),
        Ok(name) => {
            let (o, k) = expect_token_spec(t, e, j, TokenView::LBrace);
            match o {
                Err(p) => (Err(syntax::Service::Start(p.line, p.col)), k),
                Ok(_) => {
                    let (ms, m) = methods_from(t, e, k, Seq::empty());
                    match ms {
                        Err(x) => (Err(syntax::Service::BadMethod(x)), m),
                        Ok(ms) => {
                            let (c, n2) = expect_token_spec(t, e, m, TokenView::RBrace);
                            match c {
                                Err(p) => (Err(syntax::Service::MissingEnd(p.line, p.col)), n2),
                                Ok(_) => (
                                    Ok(
                                        ServiceView {
                                            annotations: anns,
                                            doc_comment: doc,
                                            name,
                                            methods: ms,
                                        },
                                    ),
                                    n2,
                                ),
                            }
                        },
                    }
                },
            }
        },
    }
}

/// One declaration, or `None` at the end of input.
#[verifier::opaque]
pub open spec fn parse_decl_spec(t: Seq<LexResultView>, e: Position, i: int) -> (
    Result<Option<DeclView>, syntax::Decl>,
    int,
) {
    let (doc, j) = parse_comment_spec(t, i);
    let (anns, k) = annotations_from(t, e, j, Seq::empty());
    match anns {
        Err(x) => (Err(syntax::Decl::BadAnnotation(x)), k),
        Ok(anns) => {
            let (a, m) = advance(t, k);
            match a {
                None => (Ok(None), m),
                Some(Ok((r, TokenView::Data))) => {
                    let (d, n) = parse_data_spec(t, e, m, doc, anns);
                    (
                        match d {
                            Ok(d) => Ok(Some(DeclView::Data(d))),
                            Err(x) => Err(x),
                        },
                        n,
                    )
                },
                Some(Ok((r, TokenView::Service))) => {
                    let (s, n) = parse_service_spec(t, e, m, doc, anns);
                    (
                        match s {
                            Ok(s) => Ok(Some(DeclView::Service(s))),
                            Err(x) => Err(syntax::Decl::BadService(x)),
                        },
                        n,
                    )
                },
                Some(Ok((r, _))) => (Err(syntax::Decl::Start(r.start.line, r.start.col)), m),
                Some(Err(b)) => (
                    Err(syntax::Decl::Start(b.spec_position().line, b.spec_position().col)),
                    m,
                ),
            }
        },
    }
}

/// Skips to the next `data`, `service` or `enum` keyword, or the end.
pub open spec fn recover_spec(t: Seq<LexResultView>, i: int) -> int
    decreases t.len() - i,
{
    match peek(t, i) {
        Some(TokenView::Data) | Some(TokenView::Service) | Some(TokenView::Enum) | Some(
            TokenView::Eof,
        ) | None => i,
        _ => recover_spec(t, i + 1),
    }
}

pub open spec fn finish_module(decls: Seq<DeclView>, errors: Seq<syntax::Error>) -> Result<
    ModuleView,
    Seq<syntax::Error>,
> {
    if errors.len() == 0 {
        Ok(ModuleView { doc_comment: None, version: seq!['1'], declarations: decls })
    } else {
        Err(errors)
    }
}

/// The declarations from `i` on, after `decls` and `errors` were met.
pub open spec fn module_from(
    t: Seq<LexResultView>,
    e: Position,
    i: int,
    decls: Seq<DeclView>,
    errors: Seq<syntax::Error>,
) -> Result<ModuleView, Seq<syntax::Error>>
    decreases t.len() - i,
{
    let (d, j) = parse_decl_spec(t, e, i);
    match d {
        Ok(None) => finish_module(decls, errors),
        Ok(Some(x)) => if i < j <= t.len() {
            module_from(t, e, j, decls.push(x), errors)
        } else {
            finish_module(decls.push(x), errors)
        },
        Err(x) => {
            let k = recover_spec(t, j);
            let errors2 = errors.push(syntax::Error::ParseError(syntax::Module::Decl(x)));
            if i < k <= t.len() {
                module_from(t, e, k, decls, errors2)
            } else {
                finish_module(decls, errors2)
            }
        },
    }
}

/// Where the lexer's items end.
pub open spec fn end_of(t: Seq<LexResultView>) -> Position {
    if t.len() > 0 {
        match t.last() {
            Ok((r, _)) => r.end,
            Err(b) => b.spec_position(),
        }
    } else {
        Position { line: 1, col: 0 }
    }
}

/// What parsing the text `cs` gives: the module, or every syntax error.
pub open spec fn parse_spec(cs: Seq<char>) -> Result<ModuleView, Seq<syntax::Error>> {
    let t = lex_spec(cs);
    module_from(t, end_of(t), 0, Seq::empty(), Seq::empty())
}


/// The tokens without payload that the parser looks for.
#[derive(Clone, Copy, PartialEq, Eq, Structural)]
pub enum Punct {
    LParen,
    RParen,
    LBrace,
    RBrace,
    Comma,
    Colon,
    Hash,
    Def,
    Eof,
}

pub open spec fn punct_token(p: Punct) -> TokenView {
    match p {
        Punct::LParen => TokenView::LParen,
        Punct::RParen => TokenView::RParen,
        Punct::LBrace => TokenView::LBrace,
        Punct::RBrace => TokenView::RBrace,
        Punct::Comma => TokenView::Comma,
        Punct::Colon => TokenView::Colon,
        Punct::Hash => TokenView::Hash,
        Punct::Def => TokenView::Def,
        Punct::Eof => TokenView::Eof,
    }
}

pub open spec fn res_view<T: View, E>(r: Result<T, E>) -> Result<T::V, E> {
    match r {
        Ok(x) => Ok(x@),
        Err(e) => Err(e),
    }
}

pub open spec fn exprs_view(s: Seq<Expr>) -> Seq<ExprView> {
    s.map_values(|x: Expr| x@)
}

pub open spec fn pairs_view(s: Seq<(Expr, Expr)>) -> Seq<(ExprView, ExprView)> {
    s.map_values(|x: (Expr, Expr)| (x.0@, x.1@))
}

pub open spec fn types_view(s: Seq<Type>) -> Seq<TypeView> {
    s.map_values(|x: Type| x@)
}

fn token_is(tok: &Token, p: Punct) -> (r: bool)
    ensures
        r == (tok@ == punct_token(p)),
{
    match p {
        Punct::LParen => matches!(tok, Token::LParen),
        Punct::RParen => matches!(tok, Token::RParen),
        Punct::LBrace => matches!(tok, Token::LBrace),
        Punct::RBrace => matches!(tok, Token::RBrace),
        Punct::Comma => matches!(tok, Token::Comma),
        Punct::Colon => matches!(tok, Token::Colon),
        Punct::Hash => matches!(tok, Token::Hash),
        Punct::Def => matches!(tok, Token::Def),
        Punct::Eof => matches!(tok, Token::Eof),
    }
}

fn peek_at(t: &Vec<LexResult>, i: usize) -> (r: Option<&Token>)
    ensures
        match r {
            Some(tok) => peek(items(t), i as int) == Some(tok@),
            None => peek(items(t), i as int) == None::<TokenView>,
        },
{
    if i < t.len() {
        match &t[i] {
            Ok((_, tok)) => Some(tok),
            Err(_) => None,
        }
    } else {
        None
    }
}

fn next_is(t: &Vec<LexResult>, i: usize, p: Punct) -> (r: bool)
    ensures
        r == (peek(items(t), i as int) == Some(punct_token(p))),
{
    match peek_at(t, i) {
        Some(tok) => token_is(tok, p),
        None => false,
    }
}

fn advance_at(t: &Vec<LexResult>, i: usize) -> (r: (Option<&LexResult>, usize))
    requires
        i <= t.len(),
    ensures
        r.1 as int == advance(items(t), i as int).1,
        r.1 <= t.len(),
        match r.0 {
            Some(x) => advance(items(t), i as int).0 == Some(lex_result_view(*x)),
            None => advance(items(t), i as int).0 == None::<LexResultView>,
        },
{
    if i < t.len() {
        match &t[i] {
            Ok((_, Token::Eof)) => (None, i + 1),
            item => (Some(item), i + 1),
        }
    } else {
        (None, i)
    }
}

fn take_if(t: &Vec<LexResult>, i: usize, p: Punct) -> (r: usize)
    requires
        i <= t.len(),
    ensures
        r as int == matches_spec(items(t), i as int, punct_token(p)),
        r <= t.len(),
{
    if next_is(t, i, p) {
        advance_at(t, i).1
    } else {
        i
    }
}

fn expect_token(t: &Vec<LexResult>, e: Position, i: usize, p: Punct) -> (r: (
    Result<(), Position>,
    usize,
))
    requires
        i <= t.len(),
    ensures
        (r.0, r.1 as int) == expect_token_spec(items(t), e, i as int, punct_token(p)),
        r.1 <= t.len(),
{
    let (a, j) = advance_at(t, i);
    match a {
        Some(Ok((r, x))) => if token_is(x, p) {
            (Ok(()), j)
        } else {
            (Err(r.end), j)
        },
        Some(Err(b)) => (Err(b.position()), j),
        None => (Err(e), j),
    }
}

fn expect_name(t: &Vec<LexResult>, e: Position, i: usize) -> (r: (Result<Name, syntax::Name>, usize))
    requires
        i <= t.len(),
    ensures
        (res_view(r.0), r.1 as int) == expect_name_spec(items(t), e, i as int),
        r.1 <= t.len(),
{
    let (a, j) = advance_at(t, i);
    match a {
        Some(Ok((r, Token::Identifier(s)))) => (Ok(Name { region: *r, value: s.clone() }), j),
        Some(Ok((r, _))) => (Err(syntax::Name::ExpectedName(r.start.line, r.start.col)), j),
        Some(Err(b)) => (Err(syntax::Name::BadToken(*b)), j),
        None => (Err(syntax::Name::BadToken(syntax::Token::Eof(e.line, e.col))), j),
    }
}

/// `s` without white space at either end.
fn trimmed(s: &String) -> (r: String)
    ensures
        r@ == trim(s@),
{
    let cs = chars_of(s.as_str());
    let lo = scan_class(&cs, 0, CharClass::Space);
    let mut hi = cs.len();
    while hi > 0 && (cs[hi - 1] == ' ' || cs[hi - 1] == '\t' || cs[hi - 1] == '\n' || cs[hi - 1]
        == '\r')
        invariant
            hi <= cs.len(),
            space_start(cs@, cs@.len() as int) == space_start(cs@, hi as int),
        decreases hi,
    {
        hi -= 1;
    }
    if lo < hi {
        string_of(cs_ref(&cs), lo, hi)
    } else {
        String::new()
    }
}

fn cs_ref(cs: &Vec<char>) -> (r: &Vec<char>)
    ensures
        r == cs,
{
    cs
}

/// Adds one comment line to the doc comment `acc`.
fn add_doc_line(acc: &mut String, line: &String)
    ensures
        final(acc)@ == doc_line(old(acc)@, line@),
{
    let l = trimmed(line);
    if l.as_str().is_empty() {
        return;
    }
    if acc.as_str().is_empty() {
        *acc = l;
        return;
    }
    push_char(acc, '\n');
    let lc = chars_of(l.as_str());
    let ghost before = acc@;
    push_range(acc, &lc, 0, lc.len());
    assert(lc@.subrange(0, lc@.len() as int) =~= lc@);
    assert(before == old(acc)@ + seq!['\n']);
}

fn comment_at(t: &Vec<LexResult>, i: usize) -> (r: bool)
    ensures
        r == (i < t.len() && items(t)[i as int] matches Ok((_, TokenView::Comment(_)))),
{
    if i < t.len() {
        match &t[i] {
            Ok((_, Token::Comment(_))) => true,
            _ => false,
        }
    } else {
        false
    }
}

fn parse_comment(t: &Vec<LexResult>, i: usize) -> (r: (Option<String>, usize))
    requires
        i <= t.len(),
    ensures
        (opt_string_view(r.0), r.1 as int) == parse_comment_spec(items(t), i as int),
        i <= r.1 <= t.len(),
{
    let mut acc = String::new();
    let mut j = i;
    while comment_at(t, j)
        invariant
            i <= j <= t.len(),
            comment_from(items(t), i as int, Seq::empty()) == comment_from(items(t), j as int, acc@),
        decreases t.len() - j,
    {
        match &t[j] {
            Ok((_, Token::Comment(c))) => {
                add_doc_line(&mut acc, c);
            },
            _ => {},
        }
        j += 1;
    }
    if acc.as_str().is_empty() {
        (None, j)
    } else {
        (Some(acc), j)
    }
}


fn parse_expr(t: &Vec<LexResult>, e: Position, i: usize) -> (r: (Result<Expr, syntax::Expr>, usize))
    requires
        i <= t.len(),
    ensures
        (res_view(r.0), r.1 as int) == parse_expr_spec(items(t), e, i as int),
        r.1 <= t.len(),
    decreases t.len() - i, 0int,
{
    let (a, j) = advance_at(t, i);
    match a {
        None => (Err(syntax::Expr::Endless(e.line, e.col)), j),
        Some(Err(b)) => (Err(syntax::Expr::BadToken(*b)), j),
        Some(Ok((r, tok))) => match tok {
            Token::Boolean(b) => (Ok(Expr::Boolean(*r, *b)), j),
            Token::Number(s) => (Ok(Expr::Number(*r, s.clone())), j),
            Token::String(s) => (Ok(Expr::String(*r, s.clone())), j),
            Token::Keyword(s) => (Ok(Expr::Keyword(*r, s.clone())), j),
            Token::Identifier(s) => (Ok(Expr::Symbol(*r, s.clone())), j),
            Token::Symbol(s) => (Ok(Expr::Symbol(*r, s.clone())), j),
            Token::LParen => parse_list(t, e, j, *r),
            Token::LBrace => parse_dict(t, e, j, *r),
            _ => (Err(syntax::Expr::Unexpected(r.start.line, r.start.col)), j),
        },
    }
}

fn parse_list(t: &Vec<LexResult>, e: Position, i: usize, open: Region) -> (r: (
    Result<Expr, syntax::Expr>,
    usize,
))
    requires
        i <= t.len(),
    ensures
        (res_view(r.0), r.1 as int) == list_from(items(t), e, i as int, open, Seq::empty()),
        r.1 <= t.len(),
    decreases t.len() - i, 1int,
{
    let mut acc: Vec<Expr> = Vec::new();
    assert(exprs_view(acc@) =~= Seq::empty());
    let mut j = i;
    loop
        invariant
            i <= j <= t.len(),
            list_from(items(t), e, i as int, open, Seq::empty()) == list_from(
                items(t),
                e,
                j as int,
                open,
                exprs_view(acc@),
            ),
        decreases t.len() - j,
    {
        if next_is(t, j, Punct::RParen) {
            match &t[j] {
                Ok((r, _)) => {
                    let reg = Region { start: open.start, end: r.end };
                    proof {
                        Expr::lemma_list_view(reg, acc);
                    }
                    let list = Expr::List(reg, acc);
                    return (Ok(list), j + 1);
                },
                Err(_) => {
                    return (Err(syntax::Expr::Endless(e.line, e.col)), j);
                },
            }
        }
        let (x, k) = parse_expr(t, e, j);
        match x {
            Err(err) => {
                return (Err(err), k);
            },
            Ok(x) => {
                if j < k && k <= t.len() {
                    let ghost before = acc@;
                    acc.push(x);
                    assert(exprs_view(acc@) =~= exprs_view(before).push(x@));
                    j = k;
                } else {
                    return (Err(syntax::Expr::Endless(e.line, e.col)), k);
                }
            },
        }
    }
}

fn parse_dict(t: &Vec<LexResult>, e: Position, i: usize, open: Region) -> (r: (
    Result<Expr, syntax::Expr>,
    usize,
))
    requires
        i <= t.len(),
    ensures
        (res_view(r.0), r.1 as int) == dict_from(items(t), e, i as int, open, Seq::empty()),
        r.1 <= t.len(),
    decreases t.len() - i, 1int,
{
    let mut acc: Vec<(Expr, Expr)> = Vec::new();
    assert(pairs_view(acc@) =~= Seq::empty());
    let mut j = i;
    loop
        invariant
            i <= j <= t.len(),
            dict_from(items(t), e, i as int, open, Seq::empty()) == dict_from(
                items(t),
                e,
                j as int,
                open,
                pairs_view(acc@),
            ),
        decreases t.len() - j,
    {
        if next_is(t, j, Punct::RBrace) {
            match &t[j] {
                Ok((r, _)) => {
                    let reg = Region { start: open.start, end: r.end };
                    proof {
                        Expr::lemma_dict_view(reg, acc);
                    }
                    let dict = Expr::Dict(reg, acc);
                    return (Ok(dict), j + 1);
                },
                Err(_) => {
                    return (Err(syntax::Expr::Endless(e.line, e.col)), j);
                },
            }
        }
        let (k, m) = parse_expr(t, e, j);
        match k {
            Err(err) => {
                return (Err(err), m);
            },
            Ok(key) => {
                if !(j < m && m <= t.len()) {
                    return (Err(syntax::Expr::Endless(e.line, e.col)), m);
                }
                if next_is(t, m, Punct::RBrace) {
                    match &t[m] {
                        Ok((r, _)) => {
                            return (
                                Err(syntax::Expr::MissingValue(r.start.line, r.start.col)),
                                m,
                            );
                        },
                        Err(_) => {
                            return (Err(syntax::Expr::Endless(e.line, e.col)), m);
                        },
                    }
                }
                let (v, n) = parse_expr(t, e, m);
                match v {
                    Err(err) => {
                        return (Err(err), n);
                    },
                    Ok(value) => {
                        if m < n && n <= t.len() {
                            let ghost before = acc@;
                            let ghost kv = (key@, value@);
                            acc.push((key, value));
                            assert(pairs_view(acc@) =~= pairs_view(before).push(kv));
                            j = n;
                        } else {
                            return (Err(syntax::Expr::Endless(e.line, e.col)), n);
                        }
                    },
                }
            },
        }
    }
}

fn parse_annotations(t: &Vec<LexResult>, e: Position, i: usize) -> (r: (
    Result<Vec<Annotation>, syntax::Expr>,
    usize,
))
    requires
        i <= t.len(),
    ensures
        r.1 <= t.len(),
        match r.0 {
            Ok(v) => annotations_from(items(t), e, i as int, Seq::empty()) == (
                Ok::<Seq<ExprView>, syntax::Expr>(annotations_view(v@)),
                r.1 as int,
            ),
            Err(x) => annotations_from(items(t), e, i as int, Seq::empty()) == (
                Err::<Seq<ExprView>, syntax::Expr>(x),
                r.1 as int,
            ),
        },
{
    let mut acc: Vec<Annotation> = Vec::new();
    assert(annotations_view(acc@) =~= Seq::empty());
    let mut j = i;
    while next_is(t, j, Punct::Hash)
        invariant
            i <= j <= t.len(),
            annotations_from(items(t), e, i as int, Seq::empty()) == annotations_from(
                items(t),
                e,
                j as int,
                annotations_view(acc@),
            ),
        decreases t.len() - j,
    {
        let (x, k) = parse_expr(t, e, j + 1);
        match x {
            Err(err) => {
                return (Err(err), k);
            },
            Ok(x) => {
                let ghost before = acc@;
                let ghost xv = x@;
                acc.push(Annotation { expr: x });
                assert(annotations_view(acc@) =~= annotations_view(before).push(xv));
                if j < k && k <= t.len() {
                    j = k;
                } else {
                    return (Ok(acc), k);
                }
            },
        }
    }
    (Ok(acc), j)
}

fn parse_type(t: &Vec<LexResult>, e: Position, i: usize) -> (r: (Result<Type, syntax::Type>, usize))
    requires
        i <= t.len(),
    ensures
        (res_view(r.0), r.1 as int) == parse_type_spec(items(t), e, i as int),
        r.1 <= t.len(),
    decreases t.len() - i, 0int,
{
    let (n, j) = expect_name(t, e, i);
    match n {
        Err(x) => (Err(syntax::Type::BadName(x)), j),
        Ok(name) => {
            if next_is(t, j, Punct::LParen) && i < j {
                let (args, k) = parse_type_args(t, e, j + 1);
                match args {
                    Ok(vs) => {
                        let ty = Type { name, variables: vs };
                        proof {
                            Type::lemma_view(ty);
                        }
                        (Ok(ty), k)
                    },
                    Err(x) => (Err(x), k),
                }
            } else {
                let ty = Type { name, variables: Vec::new() };
                assert(ty@.variables =~= Seq::<TypeView>::empty());
                (Ok(ty), j)
            }
        },
    }
}

fn parse_type_args(t: &Vec<LexResult>, e: Position, i: usize) -> (r: (
    Result<Vec<Type>, syntax::Type>,
    usize,
))
    requires
        i <= t.len(),
    ensures
        r.1 <= t.len(),
        match r.0 {
            Ok(v) => type_args_from(items(t), e, i as int, Seq::empty()) == (
                Ok::<Seq<TypeView>, syntax::Type>(types_view(v@)),
                r.1 as int,
            ),
            Err(x) => type_args_from(items(t), e, i as int, Seq::empty()) == (
                Err::<Seq<TypeView>, syntax::Type>(x),
                r.1 as int,
            ),
        },
    decreases t.len() - i, 1int,
{
    let mut acc: Vec<Type> = Vec::new();
    assert(types_view(acc@) =~= Seq::empty());
    let mut j = i;
    loop
        invariant
            i <= j <= t.len(),
            type_args_from(items(t), e, i as int, Seq::empty()) == type_args_from(
                items(t),
                e,
                j as int,
                types_view(acc@),
            ),
        decreases t.len() - j,
    {
        if next_is(t, j, Punct::RParen) {
            return (Ok(acc), j + 1);
        }
        let (x, k) = parse_type(t, e, j);
        match x {
            Err(err) => {
                return (Err(err), k);
            },
            Ok(ty) => {
                let m = take_if(t, k, Punct::Comma);
                let ghost before = acc@;
                let ghost tv = ty@;
                acc.push(ty);
                assert(types_view(acc@) =~= types_view(before).push(tv));
                if j < m && m <= t.len() {
                    j = m;
                } else {
                    return (Ok(acc), m);
                }
            },
        }
    }
}


pub open spec fn opt_property_view(p: Option<Property>) -> Option<PropertyView> {
    match p {
        Some(p) => Some(p@),
        None => None,
    }
}

fn ends_properties_at(t: &Vec<LexResult>, i: usize) -> (r: bool)
    ensures
        r == ends_properties(items(t), i as int),
{
    match peek_at(t, i) {
        Some(tok) => token_is(tok, Punct::RBrace) || token_is(tok, Punct::RParen) || token_is(
            tok,
            Punct::Eof,
        ),
        None => true,
    }
}

fn identifier_at(t: &Vec<LexResult>, i: usize) -> (r: bool)
    ensures
        r == (peek(items(t), i as int) matches Some(TokenView::Identifier(_))),
{
    match peek_at(t, i) {
        Some(Token::Identifier(_)) => true,
        _ => false,
    }
}

fn parse_property(t: &Vec<LexResult>, e: Position, i: usize) -> (r: (
    Result<Option<Property>, syntax::Property>,
    usize,
))
    requires
        i <= t.len(),
    ensures
        r.1 <= t.len(),
        match r.0 {
            Ok(p) => parse_property_spec(items(t), e, i as int) == (
                Ok::<Option<PropertyView>, syntax::Property>(opt_property_view(p)),
                r.1 as int,
            ),
            Err(x) => parse_property_spec(items(t), e, i as int) == (
                Err::<Option<PropertyView>, syntax::Property>(x),
                r.1 as int,
            ),
        },
{
    let (doc, j) = parse_comment(t, i);
    let (anns, k) = parse_annotations(t, e, j);
    let anns = match anns {
        Err(x) => {
            return (Err(syntax::Property::BadAnnotation(x)), k);
        },
        Ok(anns) => anns,
    };
    if identifier_at(t, k) {
        let (n, k1) = expect_name(t, e, k);
        let name = match n {
            Err(x) => {
                return (Err(syntax::Property::BadName(x)), k1);
            },
            Ok(name) => name,
        };
        let (c, k2) = expect_token(t, e, k1, Punct::Colon);
        if let Err(p) = c {
            return (Err(syntax::Property::MissingColon(name.region, p.line, p.col)), k2);
        }
        let (ty, k3) = parse_type(t, e, k2);
        match ty {
            Err(x) => (Err(syntax::Property::BadType(name.region, x)), k3),
            Ok(ty) => (Ok(Some(Property { annotations: anns, doc_comment: doc, name, type_: ty })), k3),
        }
    } else if ends_properties_at(t, k) && peek_at(t, k).is_some() {
        (Ok(None), k)
    } else {
        let (n, k1) = expect_name(t, e, k);
        match n {
            Err(x) => (Err(syntax::Property::BadName(x)), k1),
            Ok(_) => (Ok(None), k1),
        }
    }
}

fn parse_properties(t: &Vec<LexResult>, e: Position, i: usize) -> (r: (
    Result<Vec<Property>, syntax::Property>,
    usize,
))
    requires
        i <= t.len(),
    ensures
        r.1 <= t.len(),
        match r.0 {
            Ok(v) => properties_from(items(t), e, i as int, Seq::empty()) == (
                Ok::<Seq<PropertyView>, syntax::Property>(properties_view(v@)),
                r.1 as int,
            ),
            Err(x) => properties_from(items(t), e, i as int, Seq::empty()) == (
                Err::<Seq<PropertyView>, syntax::Property>(x),
                r.1 as int,
            ),
        },
{
    let mut acc: Vec<Property> = Vec::new();
    assert(properties_view(acc@) =~= Seq::empty());
    let mut j = i;
    while !ends_properties_at(t, j)
        invariant
            i <= j <= t.len(),
            properties_from(items(t), e, i as int, Seq::empty()) == properties_from(
                items(t),
                e,
                j as int,
                properties_view(acc@),
            ),
        decreases t.len() - j,
    {
        let (p, k) = parse_property(t, e, j);
        match p {
            Err(x) => {
                return (Err(x), k);
            },
            Ok(p) => {
                let m = take_if(t, k, Punct::Comma);
                let ghost before = acc@;
                match p {
                    Some(p) => {
                        let ghost pv = p@;
                        acc.push(p);
                        assert(properties_view(acc@) =~= properties_view(before).push(pv));
                    },
                    None => {},
                }
                if j < m && m <= t.len() {
                    j = m;
                } else {
                    return (Ok(acc), m);
                }
            },
        }
    }
    (Ok(acc), j)
}

fn parse_data(
    t: &Vec<LexResult>,
    e: Position,
    i: usize,
    doc: Option<String>,
    anns: Vec<Annotation>,
) -> (r: (Result<Data, syntax::Decl>, usize))
    requires
        i <= t.len(),
    ensures
        r.1 <= t.len(),
        (res_view(r.0), r.1 as int) == parse_data_spec(
            items(t),
            e,
            i as int,
            opt_string_view(doc),
            annotations_view(anns@),
        ),
{
    let (n, j) = expect_name(t, e, i);
    let name = match n {
        Err(x) => {
            return (Err(syntax::Decl::DataName(x)), j);
        },
        Ok(name) => name,
    };
    if next_is(t, j, Punct::LBrace) {
        let (ps, k) = parse_properties(t, e, j + 1);
        match ps {
            Err(x) => (Err(syntax::Decl::BadProperty(x)), k),
            Ok(ps) => {
                let (c, m) = expect_token(t, e, k, Punct::RBrace);
                match c {
                    Err(p) => (Err(syntax::Decl::End(p.line, p.col)), m),
                    Ok(_) => (
                        Ok(Data { annotations: anns, doc_comment: doc, name, properties: ps }),
                        m,
                    ),
                }
            },
        }
    } else {
        let d = Data { annotations: anns, doc_comment: doc, name, properties: Vec::new() };
        assert(d@.properties =~= Seq::<PropertyView>::empty());
        (Ok(d), j)
    }
}

/// The parameters that a method's property list stands for.
fn parameters_of(ps: Vec<Property>) -> (r: Vec<Parameter>)
    ensures
        r@.map_values(|x: Parameter| x@) == properties_view(ps@).map_values(
            |p: PropertyView| parameter_of(p),
        ),
{
    let ghost target = properties_view(ps@).map_values(|p: PropertyView| parameter_of(p));
    let mut rest = ps;
    let mut r: Vec<Parameter> = Vec::new();
    let ghost n = rest@.len();
    while rest.len() > 0
        invariant
            target.len() == r@.len() + rest@.len(),
            forall|k: int| 0 <= k < r@.len() ==> #[trigger] r@[k]@ == target[k],
            forall|k: int|
                0 <= k < rest@.len() ==> parameter_of(#[trigger] rest@[k]@) == target[r@.len()
                    + k],
        decreases rest@.len(),
    {
        let ghost old_rest = rest@;
        let ghost at = r@.len() as int;
        assert(parameter_of(old_rest[0]@) == target[at]);
        let p = rest.remove(0);
        let q = Parameter { annotations: p.annotations, name: p.name, type_: p.type_ };
        assert(q@ == parameter_of(p@));
        r.push(q);
        assert(forall|k: int| 0 <= k < rest@.len() ==> rest@[k] == old_rest[k + 1]);
    }
    assert(r@.map_values(|x: Parameter| x@) =~= target);
    r
}


fn parse_method(t: &Vec<LexResult>, e: Position, i: usize) -> (r: (
    Result<Method, syntax::Method>,
    usize,
))
    requires
        i <= t.len(),
    ensures
        r.1 <= t.len(),
        (res_view(r.0), r.1 as int) == parse_method_spec(items(t), e, i as int),
{
    let (doc, j) = parse_comment(t, i);
    let (anns, k) = parse_annotations(t, e, j);
    let anns = match anns {
        Err(x) => {
            return (Err(syntax::Method::BadAnnotation(x)), k);
        },
        Ok(anns) => anns,
    };
    let (d, k1) = expect_token(t, e, k, Punct::Def);
    if let Err(p) = d {
        return (Err(syntax::Method::MissingDef(p.line, p.col)), k1);
    }
    let (n, k2) = expect_name(t, e, k1);
    let name = match n {
        Err(x) => {
            return (Err(syntax::Method::BadName(x)), k2);
        },
        Ok(name) => name,
    };
    let (o, k3) = expect_token(t, e, k2, Punct::LParen);
    if let Err(p) = o {
        return (Err(syntax::Method::MissingParamStart(name.region, p.line, p.col)), k3);
    }
    let (ps, k4) = parse_properties(t, e, k3);
    let ps = match ps {
        Err(x) => {
            return (Err(syntax::Method::BadParam(x)), k4);
        },
        Ok(ps) => ps,
    };
    let (c, k5) = expect_token(t, e, k4, Punct::RParen);
    if let Err(p) = c {
        return (Err(syntax::Method::MissingParamEnd(name.region, p.line, p.col)), k5);
    }
    let parameters = parameters_of(ps);
    if next_is(t, k5, Punct::Colon) {
        let (rt, k6) = parse_type(t, e, k5 + 1);
        match rt {
            Err(x) => (Err(syntax::Method::BadReturnType(x)), k6),
            Ok(rt) => (
                Ok(
                    Method {
                        annotations: anns,
                        doc_comment: doc,
                        name,
                        parameters,
                        return_type: Some(rt),
                    },
                ),
                k6,
            ),
        }
    } else {
        (
            Ok(
                Method {
                    annotations: anns,
                    doc_comment: doc,
                    name,
                    parameters,
                    return_type: None,
                },
            ),
            k5,
        )
    }
}

fn ends_methods_at(t: &Vec<LexResult>, i: usize) -> (r: bool)
    ensures
        r == (match peek(items(t), i as int) {
            Some(TokenView::RBrace) | Some(TokenView::Eof) | None => true,
            _ => false,
        }),
{
    match peek_at(t, i) {
        Some(tok) => token_is(tok, Punct::RBrace) || token_is(tok, Punct::Eof),
        None => true,
    }
}

fn parse_methods(t: &Vec<LexResult>, e: Position, i: usize) -> (r: (
    Result<Vec<Method>, syntax::Method>,
    usize,
))
    requires
        i <= t.len(),
    ensures
        r.1 <= t.len(),
        match r.0 {
            Ok(v) => methods_from(items(t), e, i as int, Seq::empty()) == (
                Ok::<Seq<MethodView>, syntax::Method>(v@.map_values(|x: Method| x@)),
                r.1 as int,
            ),
            Err(x) => methods_from(items(t), e, i as int, Seq::empty()) == (
                Err::<Seq<MethodView>, syntax::Method>(x),
                r.1 as int,
            ),
        },
{
    let mut acc: Vec<Method> = Vec::new();
    assert(acc@.map_values(|x: Method| x@) =~= Seq::empty());
    let mut j = i;
    while !ends_methods_at(t, j)
        invariant
            i <= j <= t.len(),
            methods_from(items(t), e, i as int, Seq::empty()) == methods_from(
                items(t),
                e,
                j as int,
                acc@.map_values(|x: Method| x@),
            ),
        decreases t.len() - j,
    {
        let (m, k) = parse_method(t, e, j);
        match m {
            Err(x) => {
                return (Err(x), k);
            },
            Ok(m) => {
                let ghost before = acc@;
                let ghost mv = m@;
                acc.push(m);
                assert(acc@.map_values(|x: Method| x@) =~= before.map_values(|x: Method| x@).push(
                    mv,
                ));
                if j < k && k <= t.len() {
                    j = k;
                } else {
                    return (Ok(acc), k);
                }
            },
        }
    }
    (Ok(acc), j)
}

fn parse_service(
    t: &Vec<LexResult>,
    e: Position,
    i: usize,
    doc: Option<String>,
    anns: Vec<Annotation>,
) -> (r: (Result<Service, syntax::Service>, usize))
    requires
        i <= t.len(),
    ensures
        r.1 <= t.len(),
        (res_view(r.0), r.1 as int) == parse_service_spec(
            items(t),
            e,
            i as int,
            opt_string_view(doc),
            annotations_view(anns@),
        ),
{
    let (n, j) = expect_name(t, e, i);
    let name = match n {
        Err(x) => {
            return (Err(syntax::Service::BadName(x)), j);
        },
        Ok(name) => name,
    };
    let (o, k) = expect_token(t, e, j, Punct::LBrace);
    if let Err(p) = o {
        return (Err(syntax::Service::Start(p.line, p.col)), k);
    }
    let (ms, m) = parse_methods(t, e, k);
    let ms = match ms {
        Err(x) => {
            return (Err(syntax::Service::BadMethod(x)), m);
        },
        Ok(ms) => ms,
    };
    let (c, n2) = expect_token(t, e, m, Punct::RBrace);
    match c {
        Err(p) => (Err(syntax::Service::MissingEnd(p.line, p.col)), n2),
        Ok(_) => (Ok(Service { annotations: anns, doc_comment: doc, name, methods: ms }), n2),
    }
}

pub open spec fn opt_decl_view(d: Option<Decl>) -> Option<DeclView> {
    match d {
        Some(d) => Some(d@),
        None => None,
    }
}

fn parse_decl(t: &Vec<LexResult>, e: Position, i: usize) -> (r: (
    Result<Option<Decl>, syntax::Decl>,
    usize,
))
    requires
        i <= t.len(),
    ensures
        r.1 <= t.len(),
        match r.0 {
            Ok(d) => parse_decl_spec(items(t), e, i as int) == (
                Ok::<Option<DeclView>, syntax::Decl>(opt_decl_view(d)),
                r.1 as int,
            ),
            Err(x) => parse_decl_spec(items(t), e, i as int) == (
                Err::<Option<DeclView>, syntax::Decl>(x),
                r.1 as int,
            ),
        },
{
    reveal(parse_decl_spec);
    let (doc, j) = parse_comment(t, i);
    let (anns, k) = parse_annotations(t, e, j);
    let anns = match anns {
        Err(x) => {
            return (Err(syntax::Decl::BadAnnotation(x)), k);
        },
        Ok(anns) => anns,
    };
    let (a, m) = advance_at(t, k);
    match a {
        None => (Ok(None), m),
        Some(Ok((_, Token::Data))) => {
            let (d, n) = parse_data(t, e, m, doc, anns);
            match d {
                Ok(d) => (Ok(Some(Decl::Data(d))), n),
                Err(x) => (Err(x), n),
            }
        },
        Some(Ok((_, Token::Service))) => {
            let (s, n) = parse_service(t, e, m, doc, anns);
            match s {
                Ok(s) => (Ok(Some(Decl::Service(s))), n),
                Err(x) => (Err(syntax::Decl::BadService(x)), n),
            }
        },
        Some(Ok((r, _))) => (Err(syntax::Decl::Start(r.start.line, r.start.col)), m),
        Some(Err(b)) => {
            let p = b.position();
            (Err(syntax::Decl::Start(p.line, p.col)), m)
        },
    }
}

fn recovery_point_at(t: &Vec<LexResult>, i: usize) -> (r: bool)
    ensures
        r == (match peek(items(t), i as int) {
            Some(TokenView::Data) | Some(TokenView::Service) | Some(TokenView::Enum) | Some(
                TokenView::Eof,
            ) | None => true,
            _ => false,
        }),
{
    match peek_at(t, i) {
        Some(Token::Data) | Some(Token::Service) | Some(Token::Enum) | Some(Token::Eof) | None => true,
        _ => false,
    }
}

fn recover(t: &Vec<LexResult>, i: usize) -> (r: usize)
    requires
        i <= t.len(),
    ensures
        r as int == recover_spec(items(t), i as int),
        i <= r <= t.len(),
{
    let mut j = i;
    while !recovery_point_at(t, j)
        invariant
            i <= j <= t.len(),
            recover_spec(items(t), i as int) == recover_spec(items(t), j as int),
        decreases t.len() - j,
    {
        j += 1;
    }
    j
}

fn finish(decls: Vec<Decl>, errors: Vec<syntax::Error>) -> (r: Result<Module, Vec<syntax::Error>>)
    ensures
        match r {
            Ok(m) => finish_module(decls@.map_values(|x: Decl| x@), errors@) == Ok::<
                ModuleView,
                Seq<syntax::Error>,
            >(m@),
            Err(x) => finish_module(decls@.map_values(|x: Decl| x@), errors@) == Err::<
                ModuleView,
                Seq<syntax::Error>,
            >(x@),
        },
{
    if errors.len() == 0 {
        let mut version = String::new();
        push_char(&mut version, '1');
        assert(version@ =~= seq!['1']);
        Ok(Module { version, declarations: decls, doc_comment: None })
    } else {
        Err(errors)
    }
}

/// Where `t` ends: the end of its last item.
fn end_position(t: &Vec<LexResult>) -> (r: Position)
    ensures
        r == end_of(items(t)),
{
    if t.len() == 0 {
        return Position { line: 1, col: 0 };
    }
    match &t[t.len() - 1] {
        Ok((r, _)) => r.end,
        Err(b) => b.position(),
    }
}

/// Parses the lexer's items into a module; on failure, every syntax error.
pub fn parse_tokens(t: &Vec<LexResult>) -> (r: Result<Module, Vec<syntax::Error>>)
    ensures
        match r {
            Ok(m) => module_from(items(t), end_of(items(t)), 0, Seq::empty(), Seq::empty())
                == Ok::<ModuleView, Seq<syntax::Error>>(m@),
            Err(x) => module_from(items(t), end_of(items(t)), 0, Seq::empty(), Seq::empty())
                == Err::<ModuleView, Seq<syntax::Error>>(x@),
        },
{
    let e = end_position(t);
    let ghost tv = items(t);
    let mut decls: Vec<Decl> = Vec::new();
    let mut errors: Vec<syntax::Error> = Vec::new();
    assert(decls@.map_values(|x: Decl| x@) =~= Seq::empty());
    let mut i: usize = 0;
    loop
        invariant
            i <= t.len(),
            tv == items(t),
            e == end_of(tv),
            module_from(tv, e, 0, Seq::empty(), Seq::empty()) == module_from(
                tv,
                e,
                i as int,
                decls@.map_values(|x: Decl| x@),
                errors@,
            ),
        decreases t.len() - i,
    {
        let ghost dv = decls@.map_values(|x: Decl| x@);
        let ghost ev = errors@;
        let (d, j) = parse_decl(t, e, i);
        match d {
            Ok(None) => {
                assert(module_from(tv, e, i as int, dv, ev) == finish_module(dv, ev));
                return finish(decls, errors);
            },
            Ok(Some(x)) => {
                let ghost before = decls@;
                let ghost xv = x@;
                decls.push(x);
                assert(decls@.map_values(|x: Decl| x@) =~= dv.push(xv));
                if i < j && j <= t.len() {
                    assert(module_from(tv, e, i as int, dv, ev) == module_from(
                        tv,
                        e,
                        j as int,
                        dv.push(xv),
                        ev,
                    ));
                    i = j;
                } else {
                    assert(module_from(tv, e, i as int, dv, ev) == finish_module(dv.push(xv), ev));
                    return finish(decls, errors);
                }
            },
            Err(x) => {
                let k = recover(t, j);
                let ghost err = syntax::Error::ParseError(syntax::Module::Decl(x));
                errors.push(syntax::Error::ParseError(syntax::Module::Decl(x)));
                assert(errors@ == ev.push(err));
                if i < k && k <= t.len() {
                    assert(module_from(tv, e, i as int, dv, ev) == module_from(
                        tv,
                        e,
                        k as int,
                        dv,
                        ev.push(err),
                    ));
                    i = k;
                } else {
                    assert(module_from(tv, e, i as int, dv, ev) == finish_module(dv, ev.push(err)));
                    return finish(decls, errors);
                }
            },
        }
    }
}

/// Parses `source` into a module; on failure, every syntax error, in
/// source order. `filename` names the source in diagnostics.
pub fn parse(filename: Option<String>, source: &str) -> (r: Result<Module, Vec<syntax::Error>>)
    requires
        source@.len() + 2 < usize::MAX,
    ensures
        match r {
            Ok(m) => parse_spec(source@) == Ok::<ModuleView, Seq<syntax::Error>>(m@),
            Err(x) => parse_spec(source@) == Err::<ModuleView, Seq<syntax::Error>>(x@),
        },
{
    let t = lex(source);
    assert(items(&t) == lex_spec(source@));
    parse_tokens(&t)
}

} // verus!
