//! Validation constraints, as the canonicalizer reads them out of `check`
//! annotations.
use vstd::prelude::*;

verus! {

/// A typed validation expression. The comparisons and the boolean
/// connectives are variadic: a comparison holds of its operands pairwise.
#[derive(Debug)]
pub enum Constraint {
    Or(Vec<Constraint>),
    Lt(Vec<Constraint>),
    Eq(Vec<Constraint>),
    Le(Vec<Constraint>),
    Gt(Vec<Constraint>),
    Ge(Vec<Constraint>),
    And(Vec<Constraint>),
    Xor(Vec<Constraint>),
    Len(Box<Constraint>),
    Blank(Box<Constraint>),
    Not(Box<Constraint>),
    /// A numeric literal, as written.
    Number(String),
    String(String),
    Boolean(bool),
    /// Key-value pairs.
    Dict(Vec<(Constraint, Constraint)>),
    /// The value of the sibling property of this name.
    Access(String),
}

/// The operators of the variadic constraints.
#[derive(Debug, Clone, Copy, PartialEq, Eq, Structural)]
pub enum Op {
    Or,
    Lt,
    Eq,
    Le,
    Gt,
    Ge,
    And,
    Xor,
}

/// The operators of the unary constraints.
#[derive(Debug, Clone, Copy, PartialEq, Eq, Structural)]
pub enum UnaryOp {
    Len,
    Blank,
    Not,
}

pub enum ConstraintView {
    Nary(Op, Seq<ConstraintView>),
    Unary(UnaryOp, Box<ConstraintView>),
    Number(Seq<char>),
    String(Seq<char>),
    Boolean(bool),
    Dict(Seq<(ConstraintView, ConstraintView)>),
    Access(Seq<char>),
}

pub open spec fn nary_view(op: Op, v: Vec<Constraint>) -> ConstraintView
    decreases v, 0int,
{
    ConstraintView::Nary(
        op,
        Seq::new(
            v@.len(),
            |i: int|
                if 0 <= i < v@.len() {
                    constraint_view(v@[i])
                } else {
                    ConstraintView::Boolean(false)
                },
        ),
    )
}

/// The view of a constraint.
pub open spec fn constraint_view(c: Constraint) -> ConstraintView
    decreases c, 1int,
{
    match c {
        Constraint::Or(v) => nary_view(Op::Or, v),
        Constraint::Lt(v) => nary_view(Op::Lt, v),
        Constraint::Eq(v) => nary_view(Op::Eq, v),
        Constraint::Le(v) => nary_view(Op::Le, v),
        Constraint::Gt(v) => nary_view(Op::Gt, v),
        Constraint::Ge(v) => nary_view(Op::Ge, v),
        Constraint::And(v) => nary_view(Op::And, v),
        Constraint::Xor(v) => nary_view(Op::Xor, v),
        Constraint::Len(b) => ConstraintView::Unary(UnaryOp::Len, Box::new(constraint_view(*b))),
        Constraint::Blank(b) => ConstraintView::Unary(UnaryOp::Blank, Box::new(constraint_view(*b))),
        Constraint::Not(b) => ConstraintView::Unary(UnaryOp::Not, Box::new(constraint_view(*b))),
        Constraint::Number(s) => ConstraintView::Number(s@),
        Constraint::String(s) => ConstraintView::String(s@),
        Constraint::Boolean(b) => ConstraintView::Boolean(b),
        Constraint::Dict(v) => ConstraintView::Dict(
            Seq::new(
                v@.len(),
                |i: int|
                    if 0 <= i < v@.len() {
                        (constraint_view(v@[i].0), constraint_view(v@[i].1))
                    } else {
                        (ConstraintView::Boolean(false), ConstraintView::Boolean(false))
                    },
            ),
        ),
        Constraint::Access(s) => ConstraintView::Access(s@),
    }
}

impl View for Constraint {
    type V = ConstraintView;

    open spec fn view(&self) -> ConstraintView {
        constraint_view(*self)
    }
}

/// The property names that a constraint accesses.
pub open spec fn accessed(c: ConstraintView) -> Set<Seq<char>>
    decreases c, 0int,
{
    match c {
        ConstraintView::Access(n) => set![n],
        ConstraintView::Nary(_, cs) => accessed_seq(cs, cs.len() as int),
        ConstraintView::Unary(_, b) => accessed(*b),
        ConstraintView::Dict(ps) => accessed_pairs(ps, ps.len() as int),
        _ => Set::empty(),
    }
}

/// The property names that the first `n` constraints of `cs` access.
pub open spec fn accessed_seq(cs: Seq<ConstraintView>, n: int) -> Set<Seq<char>>
    decreases cs, n,
{
    if 0 < n <= cs.len() {
        accessed_seq(cs, n - 1) + accessed(cs[n - 1])
    } else {
        Set::empty()
    }
}

/// The property names that the first `n` pairs of `ps` access.
pub open spec fn accessed_pairs(ps: Seq<(ConstraintView, ConstraintView)>, n: int) -> Set<
    Seq<char>,
>
    decreases ps, n,
{
    if 0 < n <= ps.len() {
        accessed_pairs(ps, n - 1) + accessed(ps[n - 1].0) + accessed(ps[n - 1].1)
    } else {
        Set::empty()
    }
}

/// The set of names held in `v`.
pub open spec fn name_set(v: Seq<String>) -> Set<Seq<char>> {
    Set::new(|n: Seq<char>| exists|i: int| 0 <= i < v.len() && v[i]@ == n)
}

/// No two entries of `v` hold the same name.
pub open spec fn distinct_names(v: Seq<String>) -> bool {
    forall|i: int, j: int| 0 <= i < j < v.len() ==> v[i]@ != v[j]@
}

/// Adds `name` to the names in `deps`, unless it is there already.
pub fn insert_name(deps: &mut Vec<String>, name: &String)
    requires
        distinct_names(old(deps)@),
    ensures
        distinct_names(final(deps)@),
        name_set(final(deps)@) == name_set(old(deps)@).insert(name@),
{
    let mut i: usize = 0;
    while i < deps.len()
        invariant
            i <= deps.len(),
            deps@ == old(deps)@,
            distinct_names(deps@),
            forall|k: int| 0 <= k < i ==> deps@[k]@ != name@,
        decreases deps.len() - i,
    {
        if deps[i] == *name {
            assert(name_set(deps@) =~= name_set(deps@).insert(name@));
            return;
        }
        i += 1;
    }
    let ghost before = deps@;
    deps.push(name.clone());
    assert(name_set(deps@) =~= name_set(before).insert(name@)) by {
        assert forall|n: Seq<char>| name_set(before).insert(name@).contains(n) implies name_set(
            deps@,
        ).contains(n) by {
            if n == name@ {
                assert(deps@[before.len() as int]@ == n);
            } else {
                let k = choose|k: int| 0 <= k < before.len() && before[k]@ == n;
                assert(deps@[k]@ == n);
            }
        }
        assert forall|n: Seq<char>| name_set(deps@).contains(n) implies name_set(
            before,
        ).insert(name@).contains(n) by {
            let k = choose|k: int| 0 <= k < deps@.len() && deps@[k]@ == n;
            if k < before.len() {
                assert(before[k]@ == n);
            }
        }
    }
}

pub proof fn lemma_nary_view(op: Op, v: Vec<Constraint>)
    ensures
        nary_view(op, v) == ConstraintView::Nary(op, v@.map_values(|x: Constraint| x@)),
{
    let w = nary_view(op, v)->Nary_1;
    assert(w.len() == v@.len());
    assert(w =~= v@.map_values(|x: Constraint| x@));
}

pub proof fn lemma_dict_view(v: Vec<(Constraint, Constraint)>)
    ensures
        constraint_view(Constraint::Dict(v)) == ConstraintView::Dict(
            v@.map_values(|x: (Constraint, Constraint)| (x.0@, x.1@)),
        ),
{
    let w = constraint_view(Constraint::Dict(v))->Dict_0;
    assert(w.len() == v@.len());
    assert(w =~= v@.map_values(|x: (Constraint, Constraint)| (x.0@, x.1@)));
}

/// Collects the names that the constraints `cs` access.
fn collect_all(cs: &Vec<Constraint>, deps: &mut Vec<String>)
    requires
        distinct_names(old(deps)@),
    ensures
        distinct_names(final(deps)@),
        name_set(final(deps)@) == name_set(old(deps)@) + accessed_seq(
            cs@.map_values(|x: Constraint| x@),
            cs@.len() as int,
        ),
    decreases cs, 0int,
{
    let ghost cv = cs@.map_values(|x: Constraint| x@);
    let mut i: usize = 0;
    assert(name_set(deps@) =~= name_set(deps@) + accessed_seq(cv, 0));
    while i < cs.len()
        invariant
            i <= cs.len(),
            cv == cs@.map_values(|x: Constraint| x@),
            distinct_names(deps@),
            name_set(deps@) == name_set(old(deps)@) + accessed_seq(cv, i as int),
        decreases cs.len() - i,
    {
        proof {
            broadcast use vstd::std_specs::vec::axiom_vec_index_decreases;

            assert(decreases_to!(*cs => cs[i as int]));
        }
        cs[i].collect_accessed_deps(deps);
        i += 1;
        assert(name_set(deps@) =~= name_set(old(deps)@) + accessed_seq(cv, i as int));
    }
}

/// Collects the names that the pairs `ps` access.
fn collect_pairs(ps: &Vec<(Constraint, Constraint)>, deps: &mut Vec<String>)
    requires
        distinct_names(old(deps)@),
    ensures
        distinct_names(final(deps)@),
        name_set(final(deps)@) == name_set(old(deps)@) + accessed_pairs(
            ps@.map_values(|x: (Constraint, Constraint)| (x.0@, x.1@)),
            ps@.len() as int,
        ),
    decreases ps, 0int,
{
    let ghost pv = ps@.map_values(|x: (Constraint, Constraint)| (x.0@, x.1@));
    let mut i: usize = 0;
    assert(name_set(deps@) =~= name_set(deps@) + accessed_pairs(pv, 0));
    while i < ps.len()
        invariant
            i <= ps.len(),
            pv == ps@.map_values(|x: (Constraint, Constraint)| (x.0@, x.1@)),
            distinct_names(deps@),
            name_set(deps@) == name_set(old(deps)@) + accessed_pairs(pv, i as int),
        decreases ps.len() - i,
    {
        proof {
            broadcast use vstd::std_specs::vec::axiom_vec_index_decreases;

            assert(decreases_to!(*ps => ps[i as int]));
            assert(decreases_to!(ps[i as int] => ps[i as int].0));
            assert(decreases_to!(ps[i as int] => ps[i as int].1));
        }
        ps[i].0.collect_accessed_deps(deps);
        ps[i].1.collect_accessed_deps(deps);
        i += 1;
        assert(name_set(deps@) =~= name_set(old(deps)@) + accessed_pairs(pv, i as int));
    }
}

impl Constraint {
    /// Collects into `deps` the names of all properties this constraint
    /// accesses. The property that the constraint is attached to may be
    /// among them: the caller leaves it out.
    pub fn collect_accessed_deps(&self, deps: &mut Vec<String>)
        requires
            distinct_names(old(deps)@),
        ensures
            distinct_names(final(deps)@),
            name_set(final(deps)@) == name_set(old(deps)@) + accessed(self@),
        decreases self, 1int,
    {
        match self {
            Constraint::Access(name) => {
                insert_name(deps, name);
                assert(name_set(old(deps)@).insert(name@) =~= name_set(old(deps)@) + set![name@]);
            },
            Constraint::Or(cs) => {
                proof {
                    assert(decreases_to!(*self => self->Or_0));
                    lemma_nary_view(Op::Or, *cs);
                }
                collect_all(cs, deps);
            },
            Constraint::Lt(cs) => {
                proof {
                    assert(decreases_to!(*self => self->Lt_0));
                    lemma_nary_view(Op::Lt, *cs);
                }
                collect_all(cs, deps);
            },
            Constraint::Eq(cs) => {
                proof {
                    assert(decreases_to!(*self => self->Eq_0));
                    lemma_nary_view(Op::Eq, *cs);
                }
                collect_all(cs, deps);
            },
            Constraint::Le(cs) => {
                proof {
                    assert(decreases_to!(*self => self->Le_0));
                    lemma_nary_view(Op::Le, *cs);
                }
                collect_all(cs, deps);
            },
            Constraint::Gt(cs) => {
                proof {
                    assert(decreases_to!(*self => self->Gt_0));
                    lemma_nary_view(Op::Gt, *cs);
                }
                collect_all(cs, deps);
            },
            Constraint::Ge(cs) => {
                proof {
                    assert(decreases_to!(*self => self->Ge_0));
                    lemma_nary_view(Op::Ge, *cs);
                }
                collect_all(cs, deps);
            },
            Constraint::And(cs) => {
                proof {
                    assert(decreases_to!(*self => self->And_0));
                    lemma_nary_view(Op::And, *cs);
                }
                collect_all(cs, deps);
            },
            Constraint::Xor(cs) => {
                proof {
                    assert(decreases_to!(*self => self->Xor_0));
                    lemma_nary_view(Op::Xor, *cs);
                }
                collect_all(cs, deps);
            },
            Constraint::Len(b) | Constraint::Blank(b) | Constraint::Not(b) => {
                b.collect_accessed_deps(deps);
            },
            Constraint::Dict(ps) => {
                proof {
                    assert(decreases_to!(*self => self->Dict_0));
                    lemma_dict_view(*ps);
                }
                collect_pairs(ps, deps);
            },
            Constraint::Number(_) | Constraint::String(_) | Constraint::Boolean(_) => {
                assert(name_set(old(deps)@) + accessed(self@) =~= name_set(old(deps)@));
            },
        }
    }
}

fn copy_all(cs: &Vec<Constraint>) -> (r: Vec<Constraint>)
    ensures
        r@.map_values(|x: Constraint| x@) == cs@.map_values(|x: Constraint| x@),
    decreases cs, 0int,
{
    let mut out: Vec<Constraint> = Vec::new();
    let mut i: usize = 0;
    while i < cs.len()
        invariant
            i <= cs.len(),
            out@.len() == i,
            forall|k: int| 0 <= k < i ==> #[trigger] out@[k]@ == cs@[k]@,
        decreases cs.len() - i,
    {
        proof {
            broadcast use vstd::std_specs::vec::axiom_vec_index_decreases;

            assert(decreases_to!(*cs => cs[i as int]));
        }
        out.push(cs[i].copy());
        i += 1;
    }
    assert(out@.map_values(|x: Constraint| x@) =~= cs@.map_values(|x: Constraint| x@));
    out
}

fn copy_pairs(ps: &Vec<(Constraint, Constraint)>) -> (r: Vec<(Constraint, Constraint)>)
    ensures
        r@.map_values(|x: (Constraint, Constraint)| (x.0@, x.1@)) == ps@.map_values(
            |x: (Constraint, Constraint)| (x.0@, x.1@),
        ),
    decreases ps, 0int,
{
    let mut out: Vec<(Constraint, Constraint)> = Vec::new();
    let mut i: usize = 0;
    while i < ps.len()
        invariant
            i <= ps.len(),
            out@.len() == i,
            forall|k: int| 0 <= k < i ==> #[trigger] out@[k].0@ == ps@[k].0@ && out@[k].1@ == ps@[k].1@,
        decreases ps.len() - i,
    {
        proof {
            broadcast use vstd::std_specs::vec::axiom_vec_index_decreases;

            assert(decreases_to!(*ps => ps[i as int]));
            assert(decreases_to!(ps[i as int] => ps[i as int].0));
            assert(decreases_to!(ps[i as int] => ps[i as int].1));
        }
        let k = ps[i].0.copy();
        let v = ps[i].1.copy();
        out.push((k, v));
        i += 1;
    }
    assert(out@.map_values(|x: (Constraint, Constraint)| (x.0@, x.1@)) =~= ps@.map_values(
        |x: (Constraint, Constraint)| (x.0@, x.1@),
    ));
    out
}

impl Constraint {
    /// A copy of this constraint.
    pub fn copy(&self) -> (r: Constraint)
        ensures
            r@ == self@,
        decreases self, 1int,
    {
        match self {
            Constraint::Or(cs) => {
                proof {
                    assert(decreases_to!(*self => self->Or_0));
                }
                let out = copy_all(cs);
                proof {
                    lemma_nary_view(Op::Or, *cs);
                    lemma_nary_view(Op::Or, out);
                }
                Constraint::Or(out)
            },
            Constraint::Lt(cs) => {
                proof {
                    assert(decreases_to!(*self => self->Lt_0));
                }
                let out = copy_all(cs);
                proof {
                    lemma_nary_view(Op::Lt, *cs);
                    lemma_nary_view(Op::Lt, out);
                }
                Constraint::Lt(out)
            },
            Constraint::Eq(cs) => {
                proof {
                    assert(decreases_to!(*self => self->Eq_0));
                }
                let out = copy_all(cs);
                proof {
                    lemma_nary_view(Op::Eq, *cs);
                    lemma_nary_view(Op::Eq, out);
                }
                Constraint::Eq(out)
            },
            Constraint::Le(cs) => {
                proof {
                    assert(decreases_to!(*self => self->Le_0));
                }
                let out = copy_all(cs);
                proof {
                    lemma_nary_view(Op::Le, *cs);
                    lemma_nary_view(Op::Le, out);
                }
                Constraint::Le(out)
            },
            Constraint::Gt(cs) => {
                proof {
                    assert(decreases_to!(*self => self->Gt_0));
                }
                let out = copy_all(cs);
                proof {
                    lemma_nary_view(Op::Gt, *cs);
                    lemma_nary_view(Op::Gt, out);
                }
                Constraint::Gt(out)
            },
            Constraint::Ge(cs) => {
                proof {
                    assert(decreases_to!(*self => self->Ge_0));
                }
                let out = copy_all(cs);
                proof {
                    lemma_nary_view(Op::Ge, *cs);
                    lemma_nary_view(Op::Ge, out);
                }
                Constraint::Ge(out)
            },
            Constraint::And(cs) => {
                proof {
                    assert(decreases_to!(*self => self->And_0));
                }
                let out = copy_all(cs);
                proof {
                    lemma_nary_view(Op::And, *cs);
                    lemma_nary_view(Op::And, out);
                }
                Constraint::And(out)
            },
            Constraint::Xor(cs) => {
                proof {
                    assert(decreases_to!(*self => self->Xor_0));
                }
                let out = copy_all(cs);
                proof {
                    lemma_nary_view(Op::Xor, *cs);
                    lemma_nary_view(Op::Xor, out);
                }
                Constraint::Xor(out)
            },
            Constraint::Len(b) => Constraint::Len(Box::new(b.copy())),
            Constraint::Blank(b) => Constraint::Blank(Box::new(b.copy())),
            Constraint::Not(b) => Constraint::Not(Box::new(b.copy())),
            Constraint::Number(s) => Constraint::Number(s.clone()),
            Constraint::String(s) => Constraint::String(s.clone()),
            Constraint::Boolean(b) => Constraint::Boolean(*b),
            Constraint::Dict(ps) => {
                proof {
                    assert(decreases_to!(*self => self->Dict_0));
                }
                let out = copy_pairs(ps);
                proof {
                    lemma_dict_view(*ps);
                    lemma_dict_view(out);
                }
                Constraint::Dict(out)
            },
            Constraint::Access(s) => Constraint::Access(s.clone()),
        }
    }
}

} // verus!
