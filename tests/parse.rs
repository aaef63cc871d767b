use wrpc::ast::source::{Decl, Expr, Module};
use wrpc::error::syntax;
use wrpc::lexer::lex;
use wrpc::parse::parse;
use wrpc::reporting::{Position, Region};
use wrpc::token::Token;

fn module(source: &str) -> Module {
    match parse(None, source) {
        Ok(m) => m,
        Err(e) => panic!("unexpected syntax errors: {:?}", e),
    }
}

#[test]
fn test_data_decl_without_braces_is_ok() {
    let result = parse(None, "data Test");
    assert!(result.is_ok())
}

#[test]
fn test_data_decl_with_missing_ending_brace_errors() {
    let result = parse(None, "data Test {");
    assert!(result.is_err())
}

#[test]
fn test_data_decl_with_ending_brace_is_ok() {
    let result = parse(None, "data Test {}");
    assert!(result.is_ok())
}

#[test]
fn data_without_braces_has_no_properties() {
    let m = module("data Test");
    assert_eq!(m.declarations.len(), 1);
    match &m.declarations[0] {
        Decl::Data(d) => {
            assert_eq!(d.name.value, "Test");
            assert_eq!(d.properties.len(), 0);
        }
        _ => panic!("expected a data declaration"),
    }
}

#[test]
fn data_with_empty_braces_has_no_properties() {
    let m = module("data Test {}");
    match &m.declarations[0] {
        Decl::Data(d) => assert_eq!(d.properties.len(), 0),
        _ => panic!("expected a data declaration"),
    }
}

#[test]
fn unterminated_data_is_an_unexpected_end() {
    let errors = parse(None, "data Test {").unwrap_err();
    assert_eq!(errors.len(), 1);
    assert_eq!(
        errors[0],
        syntax::Error::ParseError(syntax::Module::Decl(syntax::Decl::End(1, 11)))
    );
}

#[test]
fn one_error_per_malformed_declaration() {
    let errors = parse(None, "data A {\n  x: \n}\ndata B {\n  y:\n}").unwrap_err();
    assert_eq!(errors.len(), 2);
    for e in &errors {
        assert!(matches!(
            e,
            syntax::Error::ParseError(syntax::Module::Decl(syntax::Decl::BadProperty(
                syntax::Property::BadType(_, _)
            )))
        ));
    }
}

#[test]
fn parsing_twice_gives_equal_results() {
    let source = "// A place.\ndata Address {\n  #(check (= .country \"DE\"))\n  country: String,\n  lines: List(String)\n}\nservice S { def get(id: Int32): Address }";
    let first = format!("{:?}", parse(None, source));
    let second = format!("{:?}", parse(None, source));
    assert_eq!(first, second);
    let bad = "data { x }\nservice";
    assert_eq!(format!("{:?}", parse(None, bad)), format!("{:?}", parse(None, bad)));
}

#[test]
fn properties_with_comments_commas_and_type_arguments() {
    let m = module("data A {\n  // The key.\n  //   second line\n  key: String\n  values: Map(String, List(Int32)),\n}");
    match &m.declarations[0] {
        Decl::Data(d) => {
            assert_eq!(d.properties.len(), 2);
            assert_eq!(d.properties[0].name.value, "key");
            assert_eq!(d.properties[0].doc_comment.as_deref(), Some("The key.\nsecond line"));
            assert_eq!(d.properties[0].type_.name.value, "String");
            let t = &d.properties[1].type_;
            assert_eq!(t.name.value, "Map");
            assert_eq!(t.variables.len(), 2);
            assert_eq!(t.variables[1].name.value, "List");
            assert_eq!(t.variables[1].variables[0].name.value, "Int32");
        }
        _ => panic!("expected a data declaration"),
    }
}

#[test]
fn service_with_methods() {
    let m = module("// Sessions.\nservice SessionService {\n  def login(name: String, password: String): Session\n  def logout()\n}");
    match &m.declarations[0] {
        Decl::Service(s) => {
            assert_eq!(s.name.value, "SessionService");
            assert_eq!(s.doc_comment.as_deref(), Some("Sessions."));
            assert_eq!(s.methods.len(), 2);
            assert_eq!(s.methods[0].name.value, "login");
            assert_eq!(s.methods[0].parameters.len(), 2);
            assert_eq!(s.methods[0].parameters[1].name.value, "password");
            assert_eq!(s.methods[0].return_type.as_ref().map(|t| t.name.value.as_str()), Some("Session"));
            assert!(s.methods[1].return_type.is_none());
            assert_eq!(s.methods[1].parameters.len(), 0);
        }
        _ => panic!("expected a service declaration"),
    }
}

#[test]
fn annotation_expressions() {
    let m = module("data A {\n  #(check (>= (len .name) 3) {:k 1.5})\n  name: String\n}");
    match &m.declarations[0] {
        Decl::Data(d) => {
            let anns = &d.properties[0].annotations;
            assert_eq!(anns.len(), 1);
            match &anns[0].expr {
                Expr::List(_, items) => {
                    assert_eq!(items.len(), 3);
                    assert!(matches!(&items[0], Expr::Symbol(_, s) if s == "check"));
                    match &items[2] {
                        Expr::Dict(_, pairs) => {
                            assert_eq!(pairs.len(), 1);
                            assert!(matches!(&pairs[0].0, Expr::Keyword(_, k) if k == "k"));
                            assert!(matches!(&pairs[0].1, Expr::Number(_, n) if n == "1.5"));
                        }
                        other => panic!("expected a map, got {:?}", other),
                    }
                }
                other => panic!("expected a list, got {:?}", other),
            }
        }
        _ => panic!("expected a data declaration"),
    }
}

#[test]
fn service_without_braces_errors() {
    let errors = parse(None, "service S").unwrap_err();
    assert_eq!(errors.len(), 1);
    assert!(matches!(
        errors[0],
        syntax::Error::ParseError(syntax::Module::Decl(syntax::Decl::BadService(syntax::Service::Start(_, _))))
    ));
}

#[test]
fn method_without_def_errors() {
    let errors = parse(None, "service S { get() }").unwrap_err();
    assert!(matches!(
        errors[0],
        syntax::Error::ParseError(syntax::Module::Decl(syntax::Decl::BadService(syntax::Service::BadMethod(
            syntax::Method::MissingDef(_, _)
        ))))
    ));
}

#[test]
fn missing_colon_errors() {
    let errors = parse(None, "data A { x String }").unwrap_err();
    assert!(matches!(
        errors[0],
        syntax::Error::ParseError(syntax::Module::Decl(syntax::Decl::BadProperty(
            syntax::Property::MissingColon(_, _, _)
        )))
    ));
}

#[test]
fn unexpected_declaration_start_and_recovery() {
    let errors = parse(None, "foo bar\ndata A {}\nenum E").unwrap_err();
    assert_eq!(errors.len(), 2);
    assert_eq!(errors[0], syntax::Error::ParseError(syntax::Module::Decl(syntax::Decl::Start(1, 0))));
    assert_eq!(errors[1], syntax::Error::ParseError(syntax::Module::Decl(syntax::Decl::Start(3, 0))));
}

#[test]
fn lexer_reads_tokens_with_regions() {
    let items = lex("data A {\n  x: \"a\\nb\", :kw .acc <= -12.5 true\n}");
    let tokens: Vec<Token> = items.iter().map(|i| i.clone().unwrap().1).collect();
    assert_eq!(
        tokens,
        vec![
            Token::Data,
            Token::Identifier("A".to_string()),
            Token::LBrace,
            Token::Identifier("x".to_string()),
            Token::Colon,
            Token::String("a\nb".to_string()),
            Token::Comma,
            Token::Keyword("kw".to_string()),
            Token::Symbol(".acc".to_string()),
            Token::Symbol("<=".to_string()),
            Token::Number("-12.5".to_string()),
            Token::Boolean(true),
            Token::RBrace,
            Token::Eof,
        ]
    );
    let (region, _) = items[3].clone().unwrap();
    assert_eq!(region, Region::new(2, 2, 2, 3));
    let (eof, _) = items[13].clone().unwrap();
    assert_eq!(eof.start, Position { line: 3, col: 1 });
}

#[test]
fn lexer_reports_malformed_tokens_and_goes_on() {
    let items = lex("\"a\\q\" $ 1. / \"open");
    assert_eq!(items.len(), 6);
    assert_eq!(
        items[0],
        Err(syntax::Token::String(1, 0, syntax::Str::StringEscape(syntax::Escape::EscapeUnknown)))
    );
    assert_eq!(items[1], Err(syntax::Token::BadChar(1, 6, '$')));
    assert_eq!(items[2], Err(syntax::Token::Number(1, 8, syntax::Number::Bad)));
    assert_eq!(items[3], Err(syntax::Token::Comment(syntax::Comment::Start, 1, 11)));
    assert_eq!(items[4], Err(syntax::Token::String(1, 13, syntax::Str::Endless)));
    assert!(matches!(&items[5], Ok((_, Token::Eof))));
}

#[test]
fn malformed_token_position() {
    assert_eq!(syntax::Token::BadChar(4, 2, '$').position(), Position { line: 4, col: 2 });
    assert_eq!(syntax::Token::Eof(7, 0).position(), Position { line: 7, col: 0 });
}

#[test]
fn reports_name_title_text_and_position() {
    let errors = parse(None, "data Test {").unwrap_err();
    let report = errors[0].to_report();
    assert_eq!(report.title, "UNEXPECTED END OF DATA DECLARATION");
    assert_eq!(report.blocks.len(), 2);
    assert_eq!(
        report.blocks[1],
        wrpc::reporting::Block::Snippet(Region::new(1, 11, 1, 11))
    );
    let start = parse(None, "  foo").unwrap_err();
    let r = start[0].to_report();
    assert_eq!(r.title, "DATA DECLARATION");
    assert_eq!(r.blocks[1], wrpc::reporting::Block::Snippet(Region::new(1, 2, 1, 2)));
}

#[test]
fn expression_text() {
    let m = module("data A {\n  #(check (= .a \"x\") :k {1 true} -2)\n  a: String\n}");
    match &m.declarations[0] {
        Decl::Data(d) => {
            assert_eq!(d.properties[0].annotations[0].expr.to_text(), "(check (= .a \"x\") :k {1 true} -2)");
        }
        _ => panic!("expected a data declaration"),
    }
}
