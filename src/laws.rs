//! Properties that relate several calls or hold of every input, proved
//! from the contracts of the functions they speak of.
use vstd::prelude::*;

use crate::ast::canonical as can;
use crate::ast::source as src;
use crate::ast::source::ModuleView;
use crate::canonicalize::{
    canonical_property, canonical_record, depends_on, respects_dependencies,
};
use crate::ast::constraints::name_set;
use crate::error::syntax;
use crate::parse::parse_spec;

verus! {

/// What `parse` may return for `source`: the module or the errors that
/// `parse_spec` gives.
pub open spec fn parses_to(source: Seq<char>, r: Result<src::Module, Vec<syntax::Error>>) -> bool {
    match r {
        Ok(m) => parse_spec(source) == Ok::<ModuleView, Seq<syntax::Error>>(m@),
        Err(x) => parse_spec(source) == Err::<ModuleView, Seq<syntax::Error>>(x@),
    }
}

/// Parsing one text twice gives structurally equal results: equal modules,
/// or equal lists of errors.
pub proof fn lemma_parse_idempotent(
    source: Seq<char>,
    first: Result<src::Module, Vec<syntax::Error>>,
    second: Result<src::Module, Vec<syntax::Error>>,
)
    requires
        parses_to(source, first),
        parses_to(source, second),
    ensures
        first is Ok <==> second is Ok,
        first is Ok ==> first->Ok_0@ == second->Ok_0@,
        first is Err ==> first->Err_0@ == second->Err_0@,
{
}

/// A property's own name is never among its dependencies, even where its
/// constraints access it.
pub proof fn lemma_no_self_dependency(p: src::PropertyView, q: can::Property)
    requires
        canonical_property(p, q),
    ensures
        !name_set(q.deps@).contains(p.name.value),
{
}

/// In a canonical record, a property that another property's constraints
/// access comes before that property in the validation order.
pub proof fn lemma_dependency_order(d: src::DataView, r: can::Record, p: usize, q: usize)
    requires
        canonical_record(d, r),
        p < d.properties.len(),
        q < d.properties.len(),
        depends_on(d.properties, p, q),
    ensures
        exists|a: int, b: int|
            0 <= b < a < r.property_validation_order@.len()
                && r.property_validation_order@[a]@ == d.properties[p as int].name.value
                && r.property_validation_order@[b]@ == d.properties[q as int].name.value,
{
    let order = r.property_validation_order@;
    let o = choose|o: Seq<usize>|
        respects_dependencies(d.properties, o) && order.len() == o.len() && forall|a: int|
            0 <= a < o.len() ==> #[trigger] order[a]@ == d.properties[o[a] as int].name.value;
    assert(order.len() <= usize::MAX) by {
        broadcast use vstd::std_specs::vec::axiom_spec_len;

        assert(r.property_validation_order.len() == order.len());
    }
    crate::canonicalize::lemma_covers(o, d.properties.len() as nat);
    assert(o.contains(p));
    assert(o.contains(q));
    let a = choose|a: int| 0 <= a < o.len() && o[a] == p;
    let b = choose|b: int| 0 <= b < o.len() && o[b] == q;
    assert(depends_on(d.properties, o[a], o[b]));
    assert(order[a]@ == d.properties[p as int].name.value);
    assert(order[b]@ == d.properties[q as int].name.value);
}

} // verus!
