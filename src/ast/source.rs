//! The source AST, as the parser builds it.
use vstd::prelude::*;

use crate::lexer::{chars_of, push_char, push_range};
use crate::reporting::Region;

verus! {

/// A parsed module: its declarations in source order.
#[derive(Debug)]
pub struct Module {
    pub doc_comment: Option<String>,
    pub version: String,
    pub declarations: Vec<Decl>,
}

#[derive(Debug)]
pub enum Decl {
    Data(Data),
    Enum(Enum),
    Service(Service),
}

#[derive(Debug)]
pub struct Data {
    pub annotations: Vec<Annotation>,
    pub doc_comment: Option<String>,
    pub name: Name,
    pub properties: Vec<Property>,
}

#[derive(Debug)]
pub struct Property {
    pub annotations: Vec<Annotation>,
    pub doc_comment: Option<String>,
    pub name: Name,
    pub type_: Type,
}

#[derive(Debug)]
pub struct Enum {
    pub annotations: Vec<Annotation>,
    pub doc_comment: Option<String>,
    pub name: Name,
    pub variants: Vec<Variant>,
}

#[derive(Debug)]
pub struct Variant {
    pub annotations: Vec<Annotation>,
    pub doc_comment: Option<String>,
    pub name: Name,
    pub properties: Vec<Property>,
}

/// A type reference: a name with type arguments, as in `Map(String, Int32)`.
#[derive(Debug)]
pub struct Type {
    pub name: Name,
    pub variables: Vec<Type>,
}

#[derive(Debug)]
pub struct Service {
    pub annotations: Vec<Annotation>,
    pub doc_comment: Option<String>,
    pub name: Name,
    pub methods: Vec<Method>,
}

#[derive(Debug)]
pub struct Method {
    pub annotations: Vec<Annotation>,
    pub doc_comment: Option<String>,
    pub name: Name,
    pub parameters: Vec<Parameter>,
    pub return_type: Option<Type>,
}

#[derive(Debug)]
pub struct Parameter {
    pub annotations: Vec<Annotation>,
    pub name: Name,
    pub type_: Type,
}

/// An identifier with the region it was read from.
#[derive(Debug, Clone)]
pub struct Name {
    pub region: Region,
    pub value: String,
}

/// An annotation `#expr` in front of a declaration, property or method.
#[derive(Debug)]
pub struct Annotation {
    pub expr: Expr,
}

/// The expression language of annotations.
#[derive(Debug)]
pub enum Expr {
    Boolean(Region, bool),
    /// A numeric literal, as written.
    Number(Region, String),
    String(Region, String),
    Keyword(Region, String),
    Symbol(Region, String),
    List(Region, Vec<Expr>),
    Dict(Region, Vec<(Expr, Expr)>),
}

pub struct ModuleView {
    pub doc_comment: Option<Seq<char>>,
    pub version: Seq<char>,
    pub declarations: Seq<DeclView>,
}

pub enum DeclView {
    Data(DataView),
    Enum(EnumView),
    Service(ServiceView),
}

pub struct DataView {
    pub annotations: Seq<ExprView>,
    pub doc_comment: Option<Seq<char>>,
    pub name: NameView,
    pub properties: Seq<PropertyView>,
}

pub struct PropertyView {
    pub annotations: Seq<ExprView>,
    pub doc_comment: Option<Seq<char>>,
    pub name: NameView,
    pub type_: TypeView,
}

pub struct EnumView {
    pub annotations: Seq<ExprView>,
    pub doc_comment: Option<Seq<char>>,
    pub name: NameView,
    pub variants: Seq<VariantView>,
}

pub struct VariantView {
    pub annotations: Seq<ExprView>,
    pub doc_comment: Option<Seq<char>>,
    pub name: NameView,
    pub properties: Seq<PropertyView>,
}

pub struct TypeView {
    pub name: NameView,
    pub variables: Seq<TypeView>,
}

pub struct ServiceView {
    pub annotations: Seq<ExprView>,
    pub doc_comment: Option<Seq<char>>,
    pub name: NameView,
    pub methods: Seq<MethodView>,
}

pub struct MethodView {
    pub annotations: Seq<ExprView>,
    pub doc_comment: Option<Seq<char>>,
    pub name: NameView,
    pub parameters: Seq<ParameterView>,
    pub return_type: Option<TypeView>,
}

pub struct ParameterView {
    pub annotations: Seq<ExprView>,
    pub name: NameView,
    pub type_: TypeView,
}

pub struct NameView {
    pub region: Region,
    pub value: Seq<char>,
}

pub enum ExprView {
    Boolean(Region, bool),
    Number(Region, Seq<char>),
    String(Region, Seq<char>),
    Keyword(Region, Seq<char>),
    Symbol(Region, Seq<char>),
    List(Region, Seq<ExprView>),
    Dict(Region, Seq<(ExprView, ExprView)>),
}

pub open spec fn opt_string_view(s: Option<String>) -> Option<Seq<char>> {
    match s {
        Some(s) => Some(s@),
        None => None,
    }
}

pub open spec fn annotations_view(a: Seq<Annotation>) -> Seq<ExprView> {
    a.map_values(|x: Annotation| x.expr@)
}

pub open spec fn properties_view(p: Seq<Property>) -> Seq<PropertyView> {
    p.map_values(|x: Property| x@)
}

impl View for Name {
    type V = NameView;

    open spec fn view(&self) -> NameView {
        NameView { region: self.region, value: self.value@ }
    }
}

/// The view of a type reference.
pub open spec fn type_view(t: Type) -> TypeView
    decreases t,
{
    TypeView {
        name: t.name@,
        variables: Seq::new(
            t.variables@.len(),
            |i: int|
                if 0 <= i < t.variables@.len() {
                    type_view(t.variables@[i])
                } else {
                    TypeView { name: t.name@, variables: Seq::empty() }
                },
        ),
    }
}

impl View for Type {
    type V = TypeView;

    open spec fn view(&self) -> TypeView {
        type_view(*self)
    }
}

/// The view of an expression.
pub open spec fn expr_view(e: Expr) -> ExprView
    decreases e,
{
    match e {
        Expr::Boolean(r, b) => ExprView::Boolean(r, b),
        Expr::Number(r, s) => ExprView::Number(r, s@),
        Expr::String(r, s) => ExprView::String(r, s@),
        Expr::Keyword(r, s) => ExprView::Keyword(r, s@),
        Expr::Symbol(r, s) => ExprView::Symbol(r, s@),
        Expr::List(r, v) => ExprView::List(
            r,
            Seq::new(
                v@.len(),
                |i: int|
                    if 0 <= i < v@.len() {
                        expr_view(v@[i])
                    } else {
                        ExprView::Boolean(r, false)
                    },
            ),
        ),
        Expr::Dict(r, v) => ExprView::Dict(
            r,
            Seq::new(
                v@.len(),
                |i: int|
                    if 0 <= i < v@.len() {
                        (expr_view(v@[i].0), expr_view(v@[i].1))
                    } else {
                        (ExprView::Boolean(r, false), ExprView::Boolean(r, false))
                    },
            ),
        ),
    }
}

impl View for Expr {
    type V = ExprView;

    open spec fn view(&self) -> ExprView {
        expr_view(*self)
    }
}

impl View for Annotation {
    type V = ExprView;

    open spec fn view(&self) -> ExprView {
        self.expr@
    }
}

impl View for Property {
    type V = PropertyView;

    open spec fn view(&self) -> PropertyView {
        PropertyView {
            annotations: annotations_view(self.annotations@),
            doc_comment: opt_string_view(self.doc_comment),
            name: self.name@,
            type_: self.type_@,
        }
    }
}

impl View for Parameter {
    type V = ParameterView;

    open spec fn view(&self) -> ParameterView {
        ParameterView {
            annotations: annotations_view(self.annotations@),
            name: self.name@,
            type_: self.type_@,
        }
    }
}

impl View for Method {
    type V = MethodView;

    open spec fn view(&self) -> MethodView {
        MethodView {
            annotations: annotations_view(self.annotations@),
            doc_comment: opt_string_view(self.doc_comment),
            name: self.name@,
            parameters: self.parameters@.map_values(|x: Parameter| x@),
            return_type: match self.return_type {
                Some(t) => Some(t@),
                None => None,
            },
        }
    }
}

impl View for Data {
    type V = DataView;

    open spec fn view(&self) -> DataView {
        DataView {
            annotations: annotations_view(self.annotations@),
            doc_comment: opt_string_view(self.doc_comment),
            name: self.name@,
            properties: properties_view(self.properties@),
        }
    }
}

impl View for Variant {
    type V = VariantView;

    open spec fn view(&self) -> VariantView {
        VariantView {
            annotations: annotations_view(self.annotations@),
            doc_comment: opt_string_view(self.doc_comment),
            name: self.name@,
            properties: properties_view(self.properties@),
        }
    }
}

impl View for Enum {
    type V = EnumView;

    open spec fn view(&self) -> EnumView {
        EnumView {
            annotations: annotations_view(self.annotations@),
            doc_comment: opt_string_view(self.doc_comment),
            name: self.name@,
            variants: self.variants@.map_values(|x: Variant| x@),
        }
    }
}

impl View for Service {
    type V = ServiceView;

    open spec fn view(&self) -> ServiceView {
        ServiceView {
            annotations: annotations_view(self.annotations@),
            doc_comment: opt_string_view(self.doc_comment),
            name: self.name@,
            methods: self.methods@.map_values(|x: Method| x@),
        }
    }
}

impl View for Decl {
    type V = DeclView;

    open spec fn view(&self) -> DeclView {
        match self {
            Decl::Data(d) => DeclView::Data(d@),
            Decl::Enum(e) => DeclView::Enum(e@),
            Decl::Service(s) => DeclView::Service(s@),
        }
    }
}

impl View for Module {
    type V = ModuleView;

    open spec fn view(&self) -> ModuleView {
        ModuleView {
            doc_comment: opt_string_view(self.doc_comment),
            version: self.version@,
            declarations: self.declarations@.map_values(|x: Decl| x@),
        }
    }
}


impl Expr {
    /// The view of a list expression, over the views of its items.
    pub proof fn lemma_list_view(r: Region, v: Vec<Expr>)
        ensures
            Expr::List(r, v)@ == ExprView::List(r, v@.map_values(|x: Expr| x@)),
    {
        let w = Expr::List(r, v)@->List_1;
        assert(w.len() == v@.len());
        assert(w =~= v@.map_values(|x: Expr| x@));
    }

    /// The view of a map expression, over the views of its entries.
    pub proof fn lemma_dict_view(r: Region, v: Vec<(Expr, Expr)>)
        ensures
            Expr::Dict(r, v)@ == ExprView::Dict(r, v@.map_values(|x: (Expr, Expr)| (x.0@, x.1@))),
    {
        let w = Expr::Dict(r, v)@->Dict_1;
        assert(w.len() == v@.len());
        assert(w =~= v@.map_values(|x: (Expr, Expr)| (x.0@, x.1@)));
    }
}

impl Type {
    /// The view of a type, over the views of its type arguments.
    pub proof fn lemma_view(ty: Type)
        ensures
            ty@ == (TypeView { name: ty.name@, variables: ty.variables@.map_values(|x: Type| x@) }),
    {
        let w = ty@.variables;
        assert(w.len() == ty.variables@.len());
        assert(w =~= ty.variables@.map_values(|x: Type| x@));
    }
}

/// The upper-case form of a character, as `char::to_uppercase` gives it.
pub uninterp spec fn upper_of(c: char) -> Seq<char>;

/// The lower-case form of a character, as `char::to_lowercase` gives it.
pub uninterp spec fn lower_of(c: char) -> Seq<char>;

/// Relies on char::to_uppercase: the upper-case form of `c`, which
/// depends on `c` alone.
#[verifier::external_body]
fn upper_case(c: char) -> (r: String)
    ensures
        r@ == upper_of(c),
{
    c.to_uppercase().collect()
}

/// Relies on char::to_lowercase: the lower-case form of `c`, which
/// depends on `c` alone.
#[verifier::external_body]
fn lower_case(c: char) -> (r: String)
    ensures
        r@ == lower_of(c),
{
    c.to_lowercase().collect()
}

/// `value` with its first character replaced by `head`; empty where
/// `value` is.
pub open spec fn with_head(head: Seq<char>, value: Seq<char>) -> Seq<char> {
    if value.len() == 0 {
        Seq::empty()
    } else {
        head + value.subrange(1, value.len() as int)
    }
}

/// Replaces the first character of `value` by `head`.
pub fn replace_head(head: &String, value: &String) -> (r: String)
    ensures
        r@ == with_head(head@, value@),
{
    let cs = chars_of(value.as_str());
    if cs.len() == 0 {
        return String::new();
    }
    let hs = chars_of(head.as_str());
    let mut r = String::new();
    push_range(&mut r, &hs, 0, hs.len());
    push_range(&mut r, &cs, 1, cs.len());
    assert(hs@.subrange(0, hs@.len() as int) =~= hs@);
    assert(r@ =~= with_head(head@, value@));
    r
}

impl Name {
    /// The name with its first character in lower case.
    pub fn uncapitalized(&self) -> (r: String)
        ensures
            r@ == if self.value@.len() == 0 {
                Seq::empty()
            } else {
                with_head(lower_of(self.value@[0]), self.value@)
            },
    {
        let cs = chars_of(self.value.as_str());
        if cs.len() == 0 {
            return String::new();
        }
        replace_head(&lower_case(cs[0]), &self.value)
    }

    /// The name with its first character in upper case.
    pub fn capitalized(&self) -> (r: String)
        ensures
            r@ == if self.value@.len() == 0 {
                Seq::empty()
            } else {
                with_head(upper_of(self.value@[0]), self.value@)
            },
    {
        let cs = chars_of(self.value.as_str());
        if cs.len() == 0 {
            return String::new();
        }
        replace_head(&upper_case(cs[0]), &self.value)
    }

    /// The name of the request type of a method of this name: the name
    /// capitalized, then `Request`.
    pub fn request_name(&self) -> (r: String)
        ensures
            r@ == (if self.value@.len() == 0 {
                Seq::empty()
            } else {
                with_head(upper_of(self.value@[0]), self.value@)
            }) + "Request"@,
    {
        let mut r = self.capitalized();
        let suffix = chars_of("Request");
        push_range(&mut r, &suffix, 0, suffix.len());
        assert(suffix@.subrange(0, suffix@.len() as int) =~= suffix@);
        r
    }
}

/// The text of an expression: literals as written, strings in quotes,
/// keywords after a colon, lists in parentheses and maps in braces, items
/// apart by one space.
pub open spec fn expr_text(e: ExprView) -> Seq<char>
    decreases e, 2int,
{
    match e {
        ExprView::Boolean(_, b) => if b {
            "true"@
        } else {
            "false"@
        },
        ExprView::Number(_, s) => s,
        ExprView::String(_, s) => seq!['"'] + s + seq!['"'],
        ExprView::Keyword(_, s) => seq![':'] + s,
        ExprView::Symbol(_, s) => s,
        ExprView::List(_, items) => seq!['('] + items_text(items, items.len() as int) + seq![')'],
        ExprView::Dict(_, pairs) => seq!['{'] + pairs_text(pairs, pairs.len() as int) + seq!['}'],
    }
}

/// The texts of the first `n` items, apart by one space.
pub open spec fn items_text(items: Seq<ExprView>, n: int) -> Seq<char>
    decreases items, n,
{
    if 0 < n <= items.len() {
        if n == 1 {
            expr_text(items[0])
        } else {
            items_text(items, n - 1) + seq![' '] + expr_text(items[n - 1])
        }
    } else {
        Seq::empty()
    }
}

/// The texts of the first `n` key-value pairs, apart by one space.
pub open spec fn pairs_text(pairs: Seq<(ExprView, ExprView)>, n: int) -> Seq<char>
    decreases pairs, n,
{
    if 0 < n <= pairs.len() {
        let pair = expr_text(pairs[n - 1].0) + seq![' '] + expr_text(pairs[n - 1].1);
        if n == 1 {
            pair
        } else {
            pairs_text(pairs, n - 1) + seq![' '] + pair
        }
    } else {
        Seq::empty()
    }
}

fn push_str(out: &mut String, s: &str)
    ensures
        final(out)@ == old(out)@ + s@,
{
    let cs = chars_of(s);
    push_range(out, &cs, 0, cs.len());
    assert(cs@.subrange(0, cs@.len() as int) =~= cs@);
}

impl Expr {
    /// Appends the text of this expression to `out`.
    fn write_text(&self, out: &mut String)
        ensures
            final(out)@ == old(out)@ + expr_text(self@),
        decreases self,
    {
        broadcast use vstd::std_specs::vec::axiom_vec_index_decreases;

        match self {
            Expr::Boolean(_, b) => {
                if *b {
                    push_str(out, "true");
                } else {
                    push_str(out, "false");
                }
            },
            Expr::Number(_, s) => push_str(out, s.as_str()),
            Expr::String(_, s) => {
                push_char(out, '"');
                push_str(out, s.as_str());
                push_char(out, '"');
                assert(final(out)@ =~= old(out)@ + expr_text(self@));
            },
            Expr::Keyword(_, s) => {
                push_char(out, ':');
                push_str(out, s.as_str());
                assert(final(out)@ =~= old(out)@ + expr_text(self@));
            },
            Expr::Symbol(_, s) => push_str(out, s.as_str()),
            Expr::List(r, items) => {
                proof {
                    Expr::lemma_list_view(*r, *items);
                }
                let ghost iv = items@.map_values(|x: Expr| x@);
                let ghost start = out@;
                push_char(out, '(');
                let mut i: usize = 0;
                while i < items.len()
                    invariant
                        i <= items.len(),
                        *self == Expr::List(*r, *items),
                        iv == items@.map_values(|x: Expr| x@),
                        out@ == start + seq!['('] + items_text(iv, i as int),
                    decreases items.len() - i,
                {
                    proof {
                        assert(decreases_to!(*self => self->List_1));
                        assert(decreases_to!(*items => items[i as int]));
                    }
                    let ghost before = out@;
                    if i > 0 {
                        push_char(out, ' ');
                    }
                    items[i].write_text(out);
                    i += 1;
                    assert(out@ =~= start + seq!['('] + items_text(iv, i as int));
                }
                push_char(out, ')');
                assert(out@ =~= start + expr_text(self@));
            },
            Expr::Dict(r, pairs) => {
                proof {
                    Expr::lemma_dict_view(*r, *pairs);
                }
                let ghost pv = pairs@.map_values(|x: (Expr, Expr)| (x.0@, x.1@));
                let ghost start = out@;
                push_char(out, '{');
                let mut i: usize = 0;
                while i < pairs.len()
                    invariant
                        i <= pairs.len(),
                        *self == Expr::Dict(*r, *pairs),
                        pv == pairs@.map_values(|x: (Expr, Expr)| (x.0@, x.1@)),
                        out@ == start + seq!['{'] + pairs_text(pv, i as int),
                    decreases pairs.len() - i,
                {
                    proof {
                        assert(decreases_to!(*self => self->Dict_1));
                        assert(decreases_to!(*pairs => pairs[i as int]));
                        assert(decreases_to!(pairs[i as int] => pairs[i as int].0));
                        assert(decreases_to!(pairs[i as int] => pairs[i as int].1));
                    }
                    if i > 0 {
                        push_char(out, ' ');
                    }
                    pairs[i].0.write_text(out);
                    push_char(out, ' ');
                    pairs[i].1.write_text(out);
                    i += 1;
                    assert(out@ =~= start + seq!['{'] + pairs_text(pv, i as int));
                }
                push_char(out, '}');
                assert(out@ =~= start + expr_text(self@));
            },
        }
    }

    /// The text of this expression, as the source language writes it.
    pub fn to_text(&self) -> (r: String)
        ensures
            r@ == expr_text(self@),
    {
        let mut out = String::new();
        self.write_text(&mut out);
        assert(out@ =~= expr_text(self@));
        out
    }
}

} // verus!
