//! The canonical module: the validated form of a source module that code
//! generators read.
use vstd::prelude::*;

use crate::ast::constraints::{Constraint, ConstraintView};
use crate::ast::source::Name;
use crate::lexer::{chars_of, push_char, push_range};
use itertools::Itertools;
pub use crate::ast::source::Expr;
use crate::ast::source::ExprView;

verus! {

/// A canonical module: records, enums and services, each name unique
/// among the module's declarations.
#[derive(Debug)]
pub struct Module {
    pub records: Vec<Record>,
    pub enums: Vec<Enum>,
    pub services: Vec<Service>,
}

#[derive(Debug)]
pub struct Record {
    /// The annotations other than `check`, as written.
    pub annotations: Vec<Expr>,
    pub comment: Option<String>,
    pub name: Name,
    pub properties: Vec<Property>,
    /// The constraints of the record's own `check` annotations.
    pub constraints: Vec<Constraint>,
    /// The property names in an order in which each property comes after
    /// every property that its constraints access.
    pub property_validation_order: Vec<String>,
}

#[derive(Debug)]
pub struct Property {
    pub annotations: Vec<Expr>,
    pub comment: Option<String>,
    pub name: Name,
    pub type_: Type,
    pub constraints: Vec<Constraint>,
    /// The other properties that the constraints access.
    pub deps: Vec<String>,
}

#[derive(Debug)]
pub struct Enum {
    pub annotations: Vec<Expr>,
    pub comment: Option<String>,
    pub name: Name,
    pub variants: Vec<Variant>,
    pub constraints: Vec<Constraint>,
}

#[derive(Debug)]
pub struct Variant {
    pub annotations: Vec<Expr>,
    pub comment: Option<String>,
    pub name: Name,
    pub properties: Vec<Property>,
    pub constraints: Vec<Constraint>,
}

#[derive(Debug)]
pub struct Service {
    pub annotations: Vec<Expr>,
    pub comment: Option<String>,
    pub name: Name,
    pub methods: Vec<Method>,
}

#[derive(Debug)]
pub struct Method {
    pub annotations: Vec<Expr>,
    pub name: Name,
    pub comment: Option<String>,
    pub parameters: Vec<Parameter>,
    pub return_type: Option<Type>,
}

#[derive(Debug)]
pub struct Parameter {
    pub comment: Option<String>,
    pub annotations: Vec<Expr>,
    pub constraints: Vec<Constraint>,
    pub name: Name,
    pub type_: Type,
}

/// A resolved type: a primitive, a built-in parametric type, or a
/// reference to a user-defined or generic type with its arguments.
#[derive(Debug)]
pub enum Type {
    String,
    Boolean,
    Int32,
    Int64,
    Float32,
    Float64,
    MapOf(Box<Type>, Box<Type>),
    Result(Box<Type>, Box<Type>),
    List(Box<Type>),
    SetOf(Box<Type>),
    Option(Box<Type>),
    Ref(String, Vec<Type>),
}

pub enum TypeView {
    String,
    Boolean,
    Int32,
    Int64,
    Float32,
    Float64,
    MapOf(Box<TypeView>, Box<TypeView>),
    Result(Box<TypeView>, Box<TypeView>),
    List(Box<TypeView>),
    SetOf(Box<TypeView>),
    Option(Box<TypeView>),
    Ref(Seq<char>, Seq<TypeView>),
}

/// The view of a resolved type.
pub open spec fn type_view(t: Type) -> TypeView
    decreases t,
{
    match t {
        Type::String => TypeView::String,
        Type::Boolean => TypeView::Boolean,
        Type::Int32 => TypeView::Int32,
        Type::Int64 => TypeView::Int64,
        Type::Float32 => TypeView::Float32,
        Type::Float64 => TypeView::Float64,
        Type::MapOf(k, v) => TypeView::MapOf(Box::new(type_view(*k)), Box::new(type_view(*v))),
        Type::Result(e, v) => TypeView::Result(Box::new(type_view(*e)), Box::new(type_view(*v))),
        Type::List(x) => TypeView::List(Box::new(type_view(*x))),
        Type::SetOf(x) => TypeView::SetOf(Box::new(type_view(*x))),
        Type::Option(x) => TypeView::Option(Box::new(type_view(*x))),
        Type::Ref(n, args) => TypeView::Ref(
            n@,
            Seq::new(
                args@.len(),
                |i: int|
                    if 0 <= i < args@.len() {
                        type_view(args@[i])
                    } else {
                        TypeView::String
                    },
            ),
        ),
    }
}

impl View for Type {
    type V = TypeView;

    open spec fn view(&self) -> TypeView {
        type_view(*self)
    }
}

pub proof fn lemma_ref_view(n: String, args: Vec<Type>)
    ensures
        type_view(Type::Ref(n, args)) == TypeView::Ref(n@, args@.map_values(|x: Type| x@)),
{
    let w = type_view(Type::Ref(n, args))->Ref_1;
    assert(w.len() == args@.len());
    assert(w =~= args@.map_values(|x: Type| x@));
}

/// An annotation as the canonicalizer reads it: the constraints of a
/// `check` annotation, or any other annotation passed through as written.
#[derive(Debug)]
pub enum Annotation {
    Check(Vec<Constraint>),
    Custom(Expr),
}

pub enum AnnotationView {
    Check(Seq<ConstraintView>),
    Custom(ExprView),
}

impl View for Annotation {
    type V = AnnotationView;

    open spec fn view(&self) -> AnnotationView {
        match self {
            Annotation::Check(cs) => AnnotationView::Check(cs@.map_values(|c: Constraint| c@)),
            Annotation::Custom(e) => AnnotationView::Custom(e@),
        }
    }
}

impl Enum {
    /// Whether no variant carries a payload: such an enum maps to a plain
    /// enumeration, any other one to a tagged union.
    pub fn is_simple(&self) -> (r: bool)
        ensures
            r == (forall|i: int|
                0 <= i < self.variants@.len() ==> #[trigger] self.variants@[i].properties@.len()
                    == 0),
    {
        let mut i: usize = 0;
        while i < self.variants.len()
            invariant
                i <= self.variants.len(),
                forall|k: int| 0 <= k < i ==> #[trigger] self.variants@[k].properties@.len() == 0,
            decreases self.variants.len() - i,
        {
            if self.variants[i].properties.len() != 0 {
                return false;
            }
            i += 1;
        }
        true
    }

    /// The type that refers to this enum.
    pub fn as_type(&self) -> (r: Type)
        ensures
            r@ == TypeView::Ref(self.name.value@, Seq::empty()),
    {
        let args: Vec<Type> = Vec::new();
        let n = self.name.value.clone();
        proof {
            lemma_ref_view(n, args);
            assert(args@.map_values(|x: Type| x@) =~= Seq::<TypeView>::empty());
        }
        Type::Ref(n, args)
    }
}

impl Annotation {
    /// The constraints of a `check` annotation; none for any other.
    pub fn get_constraints(&self) -> (r: Vec<Constraint>)
        ensures
            r@.map_values(|c: Constraint| c@) == match self@ {
                AnnotationView::Check(cs) => cs,
                AnnotationView::Custom(_) => Seq::empty(),
            },
    {
        match self {
            Annotation::Check(cs) => {
                let mut out: Vec<Constraint> = Vec::new();
                let mut i: usize = 0;
                while i < cs.len()
                    invariant
                        i <= cs.len(),
                        out@.len() == i,
                        forall|k: int| 0 <= k < i ==> #[trigger] out@[k]@ == cs@[k]@,
                    decreases cs.len() - i,
                {
                    out.push(cs[i].copy());
                    i += 1;
                }
                assert(out@.map_values(|c: Constraint| c@) =~= cs@.map_values(|c: Constraint| c@));
                out
            },
            Annotation::Custom(_) => {
                let out: Vec<Constraint> = Vec::new();
                assert(out@.map_values(|c: Constraint| c@) =~= Seq::empty());
                out
            },
        }
    }
}

/// `a` comes no later than `b` in the order of `String`, which compares
/// bytes; in UTF-8 that is the order of the characters, one by one.
pub open spec fn name_le(a: Seq<char>, b: Seq<char>) -> bool
    decreases a.len(),
{
    if a.len() == 0 {
        true
    } else if b.len() == 0 {
        false
    } else if a[0] != b[0] {
        a[0] < b[0]
    } else {
        name_le(a.drop_first(), b.drop_first())
    }
}

/// `o` lists each index below `n` once.
pub open spec fn is_permutation(o: Seq<usize>, n: nat) -> bool {
    &&& o.len() == n
    &&& forall|a: int| 0 <= a < o.len() ==> #[trigger] o[a] < n
    &&& forall|a: int, b: int| 0 <= a < b < o.len() ==> o[a] != o[b]
}

/// Relies on itertools::Itertools::sorted_by_key: the indices of `names`,
/// ordered by the names they point at.
#[verifier::external_body]
fn sorted_by_name(names: &Vec<String>) -> (r: Vec<usize>)
    ensures
        is_permutation(r@, names@.len()),
        forall|a: int, b: int|
            0 <= a < b < r@.len() ==> name_le(names@[r@[a] as int]@, names@[r@[b] as int]@),
{
    (0..names.len()).sorted_by_key(|i| names[*i].clone()).collect()
}

impl Module {
    /// The records, ordered by name.
    pub fn get_sorted_records(&self) -> (r: Vec<&Record>)
        ensures
            exists|o: Seq<usize>|
                is_permutation(o, self.records@.len()) && r@.len() == o.len() && forall|a: int|
                    0 <= a < o.len() ==> *#[trigger] r@[a] == self.records@[o[a] as int],
            forall|a: int, b: int|
                0 <= a < b < r@.len() ==> name_le(r@[a].name.value@, r@[b].name.value@),
    {
        let mut names: Vec<String> = Vec::new();
        let mut i: usize = 0;
        while i < self.records.len()
            invariant
                i <= self.records.len(),
                names@.len() == i,
                forall|k: int| 0 <= k < i ==> #[trigger] names@[k]@ == self.records@[k].name.value@,
            decreases self.records.len() - i,
        {
            names.push(self.records[i].name.value.clone());
            i += 1;
        }
        let order = sorted_by_name(&names);
        let mut r: Vec<&Record> = Vec::new();
        let mut k: usize = 0;
        while k < order.len()
            invariant
                k <= order.len(),
                is_permutation(order@, self.records@.len()),
                names@.len() == self.records@.len(),
                forall|m: int| 0 <= m < names@.len() ==> #[trigger] names@[m]@ == self.records@[m].name.value@,
                forall|a: int, b: int|
                    0 <= a < b < order@.len() ==> name_le(
                        names@[order@[a] as int]@,
                        names@[order@[b] as int]@,
                    ),
                r@.len() == k,
                forall|a: int| 0 <= a < k ==> *#[trigger] r@[a] == self.records@[order@[a] as int],
            decreases order.len() - k,
        {
            r.push(&self.records[order[k]]);
            k += 1;
        }
        assert forall|a: int, b: int| 0 <= a < b < r@.len() implies name_le(
            r@[a].name.value@,
            r@[b].name.value@,
        ) by {
            assert(*r@[a] == self.records@[order@[a] as int]);
            assert(*r@[b] == self.records@[order@[b] as int]);
            assert(names@[order@[a] as int]@ == self.records@[order@[a] as int].name.value@);
            assert(names@[order@[b] as int]@ == self.records@[order@[b] as int].name.value@);
        }
        r
    }

    /// The enums, ordered by name.
    pub fn get_sorted_enums(&self) -> (r: Vec<&Enum>)
        ensures
            exists|o: Seq<usize>|
                is_permutation(o, self.enums@.len()) && r@.len() == o.len() && forall|a: int|
                    0 <= a < o.len() ==> *#[trigger] r@[a] == self.enums@[o[a] as int],
            forall|a: int, b: int|
                0 <= a < b < r@.len() ==> name_le(r@[a].name.value@, r@[b].name.value@),
    {
        let mut names: Vec<String> = Vec::new();
        let mut i: usize = 0;
        while i < self.enums.len()
            invariant
                i <= self.enums.len(),
                names@.len() == i,
                forall|k: int| 0 <= k < i ==> #[trigger] names@[k]@ == self.enums@[k].name.value@,
            decreases self.enums.len() - i,
        {
            names.push(self.enums[i].name.value.clone());
            i += 1;
        }
        let order = sorted_by_name(&names);
        let mut r: Vec<&Enum> = Vec::new();
        let mut k: usize = 0;
        while k < order.len()
            invariant
                k <= order.len(),
                is_permutation(order@, self.enums@.len()),
                names@.len() == self.enums@.len(),
                forall|m: int| 0 <= m < names@.len() ==> #[trigger] names@[m]@ == self.enums@[m].name.value@,
                forall|a: int, b: int|
                    0 <= a < b < order@.len() ==> name_le(
                        names@[order@[a] as int]@,
                        names@[order@[b] as int]@,
                    ),
                r@.len() == k,
                forall|a: int| 0 <= a < k ==> *#[trigger] r@[a] == self.enums@[order@[a] as int],
            decreases order.len() - k,
        {
            r.push(&self.enums[order[k]]);
            k += 1;
        }
        assert forall|a: int, b: int| 0 <= a < b < r@.len() implies name_le(
            r@[a].name.value@,
            r@[b].name.value@,
        ) by {
            assert(*r@[a] == self.enums@[order@[a] as int]);
            assert(*r@[b] == self.enums@[order@[b] as int]);
            assert(names@[order@[a] as int]@ == self.enums@[order@[a] as int].name.value@);
            assert(names@[order@[b] as int]@ == self.enums@[order@[b] as int].name.value@);
        }
        r
    }

    /// The services, ordered by name.
    pub fn get_sorted_services(&self) -> (r: Vec<&Service>)
        ensures
            exists|o: Seq<usize>|
                is_permutation(o, self.services@.len()) && r@.len() == o.len() && forall|a: int|
                    0 <= a < o.len() ==> *#[trigger] r@[a] == self.services@[o[a] as int],
            forall|a: int, b: int|
                0 <= a < b < r@.len() ==> name_le(r@[a].name.value@, r@[b].name.value@),
    {
        let mut names: Vec<String> = Vec::new();
        let mut i: usize = 0;
        while i < self.services.len()
            invariant
                i <= self.services.len(),
                names@.len() == i,
                forall|k: int| 0 <= k < i ==> #[trigger] names@[k]@ == self.services@[k].name.value@,
            decreases self.services.len() - i,
        {
            names.push(self.services[i].name.value.clone());
            i += 1;
        }
        let order = sorted_by_name(&names);
        let mut r: Vec<&Service> = Vec::new();
        let mut k: usize = 0;
        while k < order.len()
            invariant
                k <= order.len(),
                is_permutation(order@, self.services@.len()),
                names@.len() == self.services@.len(),
                forall|m: int| 0 <= m < names@.len() ==> #[trigger] names@[m]@ == self.services@[m].name.value@,
                forall|a: int, b: int|
                    0 <= a < b < order@.len() ==> name_le(
                        names@[order@[a] as int]@,
                        names@[order@[b] as int]@,
                    ),
                r@.len() == k,
                forall|a: int| 0 <= a < k ==> *#[trigger] r@[a] == self.services@[order@[a] as int],
            decreases order.len() - k,
        {
            r.push(&self.services[order[k]]);
            k += 1;
        }
        assert forall|a: int, b: int| 0 <= a < b < r@.len() implies name_le(
            r@[a].name.value@,
            r@[b].name.value@,
        ) by {
            assert(*r@[a] == self.services@[order@[a] as int]);
            assert(*r@[b] == self.services@[order@[b] as int]);
            assert(names@[order@[a] as int]@ == self.services@[order@[a] as int].name.value@);
            assert(names@[order@[b] as int]@ == self.services@[order@[b] as int].name.value@);
        }
        r
    }

    /// A method named `method_name` of a service named `service_name`.
    pub fn get_method(&self, service_name: &str, method_name: &str) -> (r: Option<&Method>)
        ensures
            match r {
                Some(m) => exists|i: int, j: int|
                    0 <= i < self.services@.len() && 0 <= j < self.services@[i].methods@.len()
                        && self.services@[i].name.value@ == service_name@
                        && self.services@[i].methods@[j] == *m && m.name.value@ == method_name@,
                None => forall|i: int, j: int|
                    0 <= i < self.services@.len() && 0 <= j < self.services@[i].methods@.len()
                        && self.services@[i].name.value@ == service_name@ ==> #[trigger] self.services@[i].methods@[j].name.value@
                        != method_name@,
            },
    {
        let sn = service_name.to_owned();
        let mn = method_name.to_owned();
        let mut i: usize = 0;
        while i < self.services.len()
            invariant
                i <= self.services.len(),
                sn@ == service_name@,
                mn@ == method_name@,
                forall|a: int, j: int|
                    0 <= a < i && 0 <= j < self.services@[a].methods@.len()
                        && self.services@[a].name.value@ == service_name@ ==> #[trigger] self.services@[a].methods@[j].name.value@
                        != method_name@,
            decreases self.services.len() - i,
        {
            let service = &self.services[i];
            if service.name.value == sn {
                let mut j: usize = 0;
                while j < service.methods.len()
                    invariant
                        i < self.services.len(),
                        j <= service.methods.len(),
                        *service == self.services@[i as int],
                        service.name.value@ == service_name@,
                        mn@ == method_name@,
                        forall|b: int| 0 <= b < j ==> #[trigger] service.methods@[b].name.value@ != method_name@,
                    decreases service.methods.len() - j,
                {
                    if service.methods[j].name.value == mn {
                        assert(self.services@[i as int].methods@[j as int] == service.methods@[j as int]);
                        return Some(&service.methods[j]);
                    }
                    j += 1;
                }
            }
            i += 1;
        }
        None
    }
}

impl Service {
    /// The methods, ordered by name.
    pub fn get_sorted_methods(&self) -> (r: Vec<&Method>)
        ensures
            exists|o: Seq<usize>|
                is_permutation(o, self.methods@.len()) && r@.len() == o.len() && forall|a: int|
                    0 <= a < o.len() ==> *#[trigger] r@[a] == self.methods@[o[a] as int],
            forall|a: int, b: int|
                0 <= a < b < r@.len() ==> name_le(r@[a].name.value@, r@[b].name.value@),
    {
        let mut names: Vec<String> = Vec::new();
        let mut i: usize = 0;
        while i < self.methods.len()
            invariant
                i <= self.methods.len(),
                names@.len() == i,
                forall|k: int| 0 <= k < i ==> #[trigger] names@[k]@ == self.methods@[k].name.value@,
            decreases self.methods.len() - i,
        {
            names.push(self.methods[i].name.value.clone());
            i += 1;
        }
        let order = sorted_by_name(&names);
        let mut r: Vec<&Method> = Vec::new();
        let mut k: usize = 0;
        while k < order.len()
            invariant
                k <= order.len(),
                is_permutation(order@, self.methods@.len()),
                names@.len() == self.methods@.len(),
                forall|m: int| 0 <= m < names@.len() ==> #[trigger] names@[m]@ == self.methods@[m].name.value@,
                forall|a: int, b: int|
                    0 <= a < b < order@.len() ==> name_le(
                        names@[order@[a] as int]@,
                        names@[order@[b] as int]@,
                    ),
                r@.len() == k,
                forall|a: int| 0 <= a < k ==> *#[trigger] r@[a] == self.methods@[order@[a] as int],
            decreases order.len() - k,
        {
            r.push(&self.methods[order[k]]);
            k += 1;
        }
        assert forall|a: int, b: int| 0 <= a < b < r@.len() implies name_le(
            r@[a].name.value@,
            r@[b].name.value@,
        ) by {
            assert(*r@[a] == self.methods@[order@[a] as int]);
            assert(*r@[b] == self.methods@[order@[b] as int]);
            assert(names@[order@[a] as int]@ == self.methods@[order@[a] as int].name.value@);
            assert(names@[order@[b] as int]@ == self.methods@[order@[b] as int].name.value@);
        }
        r
    }

    /// The route of `method` of this service: `/service/method`.
    pub fn get_method_path(&self, method: &Method) -> (r: String)
        ensures
            r@ == seq!['/'] + self.name.value@ + seq!['/'] + method.name.value@,
    {
        let service = chars_of(self.name.value.as_str());
        let name = chars_of(method.name.value.as_str());
        let mut path = String::new();
        push_char(&mut path, '/');
        push_range(&mut path, &service, 0, service.len());
        push_char(&mut path, '/');
        push_range(&mut path, &name, 0, name.len());
        assert(service@.subrange(0, service@.len() as int) =~= service@);
        assert(name@.subrange(0, name@.len() as int) =~= name@);
        path
    }
}

} // verus!
