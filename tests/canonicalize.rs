use wrpc::ast::canonical::{self as can, Type};
use wrpc::ast::constraints::Constraint;
use wrpc::ast::source::{self as src, Annotation, Expr, Name};
use wrpc::canonicalize::{canonicalize, parse_constraint, parse_type, sorted_by_topology};
use wrpc::compile;
use wrpc::error::{canonicalize as cerr, Error};
use wrpc::reporting::Region;

fn region() -> Region {
    Region::new(1, 0, 1, 0)
}

fn name(s: &str) -> Name {
    Name { region: region(), value: s.to_string() }
}

fn ty(s: &str, variables: Vec<src::Type>) -> src::Type {
    src::Type { name: name(s), variables }
}

fn sym(s: &str) -> Expr {
    Expr::Symbol(region(), s.to_string())
}

fn list(items: Vec<Expr>) -> Expr {
    Expr::List(region(), items)
}

fn compiled(source: &str) -> can::Module {
    match compile(None, source) {
        Ok(m) => m,
        Err(e) => panic!("unexpected errors: {:?}", e),
    }
}

fn names(c: &Constraint) -> Vec<String> {
    let mut deps = Vec::new();
    c.collect_accessed_deps(&mut deps);
    deps.sort();
    deps
}

#[test]
fn constraints_test() {
    let c = Constraint::Boolean(true);
    assert!(names(&c).is_empty());
}

#[test]
fn map_type_resolves_to_builtin() {
    let t = parse_type(&ty("Map", vec![ty("String", vec![]), ty("Int32", vec![])]));
    assert!(matches!(t, Type::MapOf(k, v) if matches!(*k, Type::String) && matches!(*v, Type::Int32)));
}

#[test]
fn unknown_type_resolves_to_reference() {
    let t = parse_type(&ty("Foo", vec![]));
    assert!(matches!(t, Type::Ref(n, args) if n == "Foo" && args.is_empty()));
    let g = parse_type(&ty("Page", vec![ty("Int64", vec![]), ty("Boolean", vec![])]));
    assert!(matches!(g, Type::Ref(n, args) if n == "Page" && args.len() == 2 && matches!(args[0], Type::Int64)));
}

#[test]
fn builtin_with_too_few_arguments_is_a_reference() {
    let t = parse_type(&ty("Result", vec![ty("String", vec![])]));
    assert!(matches!(t, Type::Ref(n, args) if n == "Result" && args.len() == 1));
    let o = parse_type(&ty("Option", vec![ty("Float64", vec![])]));
    assert!(matches!(o, Type::Option(x) if matches!(*x, Type::Float64)));
}

#[test]
fn accessed_names_are_collected_once() {
    let c = Constraint::And(vec![
        Constraint::Access("a".to_string()),
        Constraint::Or(vec![Constraint::Access("b".to_string()), Constraint::Access("a".to_string())]),
    ]);
    assert_eq!(names(&c), vec!["a".to_string(), "b".to_string()]);
}

#[test]
fn constraint_from_expression() {
    let c = parse_constraint(&list(vec![
        sym("or"),
        list(vec![sym("="), sym(".country"), Expr::String(region(), "DE".to_string())]),
        list(vec![sym("not"), list(vec![sym("blank"), sym(".zip")])]),
    ]))
    .unwrap();
    match c {
        Constraint::Or(cs) => {
            assert_eq!(cs.len(), 2);
            assert!(matches!(&cs[0], Constraint::Eq(xs) if xs.len() == 2
                && matches!(&xs[0], Constraint::Access(a) if a == "country")
                && matches!(&xs[1], Constraint::String(s) if s == "DE")));
            assert!(matches!(&cs[1], Constraint::Not(b) if matches!(&**b, Constraint::Blank(_))));
        }
        other => panic!("expected or, got {:?}", other),
    }
}

#[test]
fn unknown_symbol_in_constraint_errors() {
    let e = parse_constraint(&list(vec![sym("="), sym("country")])).unwrap_err();
    assert_eq!(e, cerr::Annotation::UnknownSymbol(region()));
    let f = parse_constraint(&list(vec![sym("frobnicate"), sym(".a")])).unwrap_err();
    assert_eq!(f, cerr::Annotation::UnknownSymbol(region()));
    let g = parse_constraint(&list(vec![])).unwrap_err();
    assert_eq!(g, cerr::Annotation::Unsupported(region()));
}

#[test]
fn end_to_end_address() {
    let m = compiled("data Address {\n  #(check (or (= .country \"DE\") (= .country \"CH\")))\n  country: String,\n}");
    assert_eq!(m.records.len(), 1);
    let r = &m.records[0];
    assert_eq!(r.name.value, "Address");
    assert_eq!(r.properties.len(), 1);
    let p = &r.properties[0];
    assert_eq!(p.name.value, "country");
    assert!(matches!(p.type_, Type::String));
    assert_eq!(p.constraints.len(), 1);
    let expected = "Or([Eq([Access(\"country\"), String(\"DE\")]), Eq([Access(\"country\"), String(\"CH\")])])";
    assert_eq!(format!("{:?}", p.constraints[0]), expected);
    assert!(p.deps.is_empty());
    assert_eq!(r.property_validation_order, vec!["country".to_string()]);
}

#[test]
fn dependencies_come_first_in_validation_order() {
    let m = compiled("data Address {\n  #(check (and (= .country \"DE\") (= (len .zipcode) 5)))\n  zipcode: String,\n  #(check (or (= .country \"DE\") (= .country \"CH\")))\n  country: String,\n}");
    let r = &m.records[0];
    assert_eq!(r.properties[0].deps, vec!["country".to_string()]);
    assert_eq!(r.property_validation_order, vec!["country".to_string(), "zipcode".to_string()]);
}

#[test]
fn self_reference_is_no_dependency() {
    let m = compiled("data A {\n  #(check (> (len .name) 0))\n  name: String\n}");
    assert!(m.records[0].properties[0].deps.is_empty());
}

#[test]
fn dependency_cycle_is_reported() {
    let e = compile(None, "data A {\n  #(check (= .b 1))\n  a: Int32\n  #(check (= .a 1))\n  b: Int32\n}").unwrap_err();
    match e {
        Error::BadCanonicalization(es) => {
            assert_eq!(es.len(), 1);
            assert!(matches!(es[0], cerr::Error::BadRecord(_, cerr::Record::DependencyCycle(_))));
        }
        other => panic!("expected a canonicalization error, got {:?}", other),
    }
}

#[test]
fn topological_sort_of_indices() {
    let order = sorted_by_topology(&vec![vec![1, 2], vec![], vec![1]]).unwrap();
    assert_eq!(order, vec![1, 2, 0]);
    assert_eq!(sorted_by_topology(&vec![vec![1], vec![0]]), Err(0));
    assert_eq!(sorted_by_topology(&vec![vec![0]]), Err(0));
    assert_eq!(sorted_by_topology(&vec![]), Ok(vec![]));
}

fn enum_of(variants: Vec<src::Variant>) -> src::Module {
    src::Module {
        doc_comment: None,
        version: "1".to_string(),
        declarations: vec![src::Decl::Enum(src::Enum {
            annotations: vec![],
            doc_comment: None,
            name: name("Country"),
            variants,
        })],
    }
}

fn variant(n: &str, properties: Vec<src::Property>) -> src::Variant {
    src::Variant { annotations: vec![], doc_comment: None, name: name(n), properties }
}

fn property(n: &str, t: &str) -> src::Property {
    src::Property { annotations: vec![], doc_comment: None, name: name(n), type_: ty(t, vec![]) }
}

#[test]
fn enum_without_payloads_is_simple() {
    let m = canonicalize(&enum_of(vec![variant("De", vec![]), variant("Ch", vec![])])).unwrap();
    assert!(m.enums[0].is_simple());
    assert!(matches!(m.enums[0].as_type(), Type::Ref(n, args) if n == "Country" && args.is_empty()));
}

#[test]
fn enum_with_a_payload_is_sealed() {
    let m = canonicalize(&enum_of(vec![variant("De", vec![]), variant("Other", vec![property("code", "String")])])).unwrap();
    assert!(!m.enums[0].is_simple());
}

#[test]
fn empty_annotation_errors() {
    let mut p = property("x", "String");
    p.annotations.push(Annotation { expr: list(vec![]) });
    let es = canonicalize(&enum_of(vec![variant("V", vec![p])])).unwrap_err();
    assert_eq!(
        es,
        vec![cerr::Error::BadEnum(
            region(),
            cerr::Enum::BadVariant(region(), cerr::Variant::BadProperty(region(), cerr::Property::BadAnnotation(cerr::Annotation::Empty(region()))))
        )]
    );
}

#[test]
fn custom_annotation_is_passed_through() {
    let m = compiled("data A {\n  #(rename \"b\")\n  a: String\n}");
    let p = &m.records[0].properties[0];
    assert_eq!(p.annotations.len(), 1);
    assert!(p.constraints.is_empty());
    assert!(matches!(&p.annotations[0], Expr::List(_, items) if items.len() == 2));
}

#[test]
fn check_on_a_service_errors() {
    let e = compile(None, "#(check true)\nservice S { def f() }").unwrap_err();
    match e {
        Error::BadCanonicalization(es) => {
            assert_eq!(es.len(), 1);
            assert!(matches!(
                es[0],
                cerr::Error::BadService(_, cerr::Service::BadAnnotation(cerr::Annotation::InvalidAnnotation(_)))
            ));
        }
        other => panic!("expected a canonicalization error, got {:?}", other),
    }
}

#[test]
fn all_errors_are_collected() {
    let e = compile(None, "data A {\n  #(check x)\n  a: Int32\n  #(check y)\n  b: Int32\n}\ndata B {\n  #(check z)\n  c: Int32\n}").unwrap_err();
    match e {
        Error::BadCanonicalization(es) => assert_eq!(es.len(), 3),
        other => panic!("expected a canonicalization error, got {:?}", other),
    }
}

#[test]
fn duplicate_declaration_names_error() {
    let e = compile(None, "data A\ndata A").unwrap_err();
    match e {
        Error::BadCanonicalization(es) => {
            assert_eq!(es, vec![cerr::Error::DuplicateName(Region::new(2, 5, 2, 6))]);
        }
        other => panic!("expected a canonicalization error, got {:?}", other),
    }
}

#[test]
fn syntax_errors_stop_before_canonicalization() {
    assert!(matches!(compile(None, "data A {"), Err(Error::BadSyntax(es)) if es.len() == 1));
}

#[test]
fn service_methods_are_canonical() {
    let m = compiled("service S {\n  def get(ids: List(Int64)): Option(User)\n}");
    let s = &m.services[0];
    assert_eq!(s.methods.len(), 1);
    let method = &s.methods[0];
    assert_eq!(method.name.value, "get");
    assert!(matches!(&method.parameters[0].type_, Type::List(x) if matches!(**x, Type::Int64)));
    assert!(matches!(&method.return_type, Some(Type::Option(x)) if matches!(&**x, Type::Ref(n, _) if n == "User")));
}

#[test]
fn get_method_finds_by_service_and_name() {
    let m = compiled("service SessionService {\n  def logout()\n  def login(name: String): Session\n}");
    let found = m.get_method("SessionService", "login").unwrap();
    assert_eq!(found.name.value, "login");
    assert!(m.get_method("SessionService", "missing").is_none());
    assert!(m.get_method("Other", "login").is_none());
    assert_eq!(m.services[0].get_method_path(found), "/SessionService/login");
}

#[test]
fn sorted_getters_order_by_name() {
    let m = compiled("data Zeta\ndata Alpha\ndata Mid\nservice B { def z() def a() }\nservice A { def m() }");
    let records: Vec<&str> = m.get_sorted_records().iter().map(|r| r.name.value.as_str()).collect();
    assert_eq!(records, vec!["Alpha", "Mid", "Zeta"]);
    let services: Vec<&str> = m.get_sorted_services().iter().map(|s| s.name.value.as_str()).collect();
    assert_eq!(services, vec!["A", "B"]);
    let methods: Vec<&str> = m.services[0].get_sorted_methods().iter().map(|x| x.name.value.as_str()).collect();
    assert_eq!(methods, vec!["a", "z"]);
    assert!(m.get_sorted_enums().is_empty());
}

#[test]
fn constraints_of_annotations() {
    let check = can::Annotation::Check(vec![Constraint::Access("a".to_string()), Constraint::Boolean(false)]);
    let cs = check.get_constraints();
    assert_eq!(format!("{:?}", cs), "[Access(\"a\"), Boolean(false)]");
    let custom = can::Annotation::Custom(sym("x"));
    assert!(custom.get_constraints().is_empty());
}

#[test]
fn name_case_helpers() {
    let n = name("login");
    assert_eq!(n.capitalized(), "Login");
    assert_eq!(n.request_name(), "LoginRequest");
    assert_eq!(name("Country").uncapitalized(), "country");
    assert_eq!(name("").capitalized(), "");
    assert_eq!(name("élan").capitalized(), "Élan");
}

#[test]
fn cycle_error_names_the_first_blocked_property() {
    let source = "data A {\n  x: Int32\n  #(check (= .b 1))\n  a: Int32\n  #(check (= .a 1))\n  b: Int32\n}";
    match compile(None, source).unwrap_err() {
        Error::BadCanonicalization(es) => {
            assert_eq!(
                es,
                vec![cerr::Error::BadRecord(
                    Region::new(1, 5, 1, 6),
                    cerr::Record::DependencyCycle(Region::new(4, 2, 4, 3))
                )]
            );
        }
        other => panic!("expected a canonicalization error, got {:?}", other),
    }
}

#[test]
fn module_errors_follow_declaration_order() {
    let source = "service S { def f(#(check q) p: Int32) }\ndata A {\n  #()\n  a: Int32\n}\ndata S";
    match compile(None, source).unwrap_err() {
        Error::BadCanonicalization(es) => {
            assert_eq!(es.len(), 3);
            assert!(matches!(
                es[0],
                cerr::Error::BadService(_, cerr::Service::BadMethod(_, cerr::Method::BadParameter(_, _)))
            ));
            assert!(matches!(
                es[1],
                cerr::Error::BadRecord(_, cerr::Record::BadProperty(_, cerr::Property::BadAnnotation(cerr::Annotation::Empty(_))))
            ));
            assert_eq!(es[2], cerr::Error::DuplicateName(Region::new(6, 5, 6, 6)));
        }
        other => panic!("expected a canonicalization error, got {:?}", other),
    }
}
