//! The canonicalizer: turns a source module into a canonical one. It
//! resolves type references, reads `check` annotations into constraints,
//! computes each property's dependencies and each record's validation
//! order. Declarations are processed independently and all errors are
//! collected before the result is returned.
use vstd::prelude::*;

use crate::ast::canonical as can;
use crate::ast::constraints::{
    accessed_seq, distinct_names, lemma_dict_view, lemma_nary_view, name_set, Constraint,
    ConstraintView, Op, UnaryOp,
};
use crate::ast::source as src;
use crate::ast::source::{expr_view, Expr, ExprView};
use crate::error::canonicalize;
use crate::lexer::{chars_of, spells, string_of};
use crate::parse::res_view;
use crate::reporting::Region;
use vstd::set_lib::{lemma_int_range, lemma_len_subset, set_int_range};

verus! {

/// The canonical type that a source type reference stands for. The
/// built-in parametric types take their arguments by position; one with
/// too few arguments is taken for a reference to a type of that name.
pub open spec fn resolve_type(t: src::TypeView) -> can::TypeView
    decreases t,
{
    let n = t.name.value;
    let vs = t.variables;
    if n == seq!['S', 't', 'r', 'i', 'n', 'g'] {
        can::TypeView::String
    } else if n == seq!['I', 'n', 't', '3', '2'] {
        can::TypeView::Int32
    } else if n == seq!['I', 'n', 't', '6', '4'] {
        can::TypeView::Int64
    } else if n == seq!['F', 'l', 'o', 'a', 't', '3', '2'] {
        can::TypeView::Float32
    } else if n == seq!['F', 'l', 'o', 'a', 't', '6', '4'] {
        can::TypeView::Float64
    } else if n == seq!['B', 'o', 'o', 'l', 'e', 'a', 'n'] {
        can::TypeView::Boolean
    } else if n == seq!['M', 'a', 'p'] && vs.len() >= 2 {
        can::TypeView::MapOf(Box::new(resolve_type(vs[0])), Box::new(resolve_type(vs[1])))
    } else if n == seq!['R', 'e', 's', 'u', 'l', 't'] && vs.len() >= 2 {
        can::TypeView::Result(Box::new(resolve_type(vs[0])), Box::new(resolve_type(vs[1])))
    } else if n == seq!['S', 'e', 't'] && vs.len() >= 1 {
        can::TypeView::SetOf(Box::new(resolve_type(vs[0])))
    } else if n == seq!['L', 'i', 's', 't'] && vs.len() >= 1 {
        can::TypeView::List(Box::new(resolve_type(vs[0])))
    } else if n == seq!['O', 'p', 't', 'i', 'o', 'n'] && vs.len() >= 1 {
        can::TypeView::Option(Box::new(resolve_type(vs[0])))
    } else {
        can::TypeView::Ref(
            n,
            Seq::new(
                vs.len(),
                |i: int|
                    if 0 <= i < vs.len() {
                        resolve_type(vs[i])
                    } else {
                        can::TypeView::String
                    },
            ),
        )
    }
}

/// Resolves a source type reference into a canonical type.
pub fn parse_type(type_: &src::Type) -> (r: can::Type)
    ensures
        r@ == resolve_type(type_@),
    decreases type_,
{
    let cs = chars_of(type_.name.value.as_str());
    let n = cs.len();
    let vs = &type_.variables;
    proof {
        assert(cs@.subrange(0, n as int) =~= cs@);
        src::Type::lemma_view(*type_);
        assert(decreases_to!(*type_ => type_.variables));
        broadcast use vstd::std_specs::vec::axiom_vec_index_decreases;
    }
    if spells(&cs, 0, n, &vec!['S', 't', 'r', 'i', 'n', 'g']) {
        can::Type::String
    } else if spells(&cs, 0, n, &vec!['I', 'n', 't', '3', '2']) {
        can::Type::Int32
    } else if spells(&cs, 0, n, &vec!['I', 'n', 't', '6', '4']) {
        can::Type::Int64
    } else if spells(&cs, 0, n, &vec!['F', 'l', 'o', 'a', 't', '3', '2']) {
        can::Type::Float32
    } else if spells(&cs, 0, n, &vec!['F', 'l', 'o', 'a', 't', '6', '4']) {
        can::Type::Float64
    } else if spells(&cs, 0, n, &vec!['B', 'o', 'o', 'l', 'e', 'a', 'n']) {
        can::Type::Boolean
    } else if spells(&cs, 0, n, &vec!['M', 'a', 'p']) && vs.len() >= 2 {
        proof {
            assert(decreases_to!(*vs => vs[0]));
            assert(decreases_to!(*vs => vs[1]));
        }
        let k = parse_type(&vs[0]);
        let v = parse_type(&vs[1]);
        can::Type::MapOf(Box::new(k), Box::new(v))
    } else if spells(&cs, 0, n, &vec!['R', 'e', 's', 'u', 'l', 't']) && vs.len() >= 2 {
        proof {
            assert(decreases_to!(*vs => vs[0]));
            assert(decreases_to!(*vs => vs[1]));
        }
        let e = parse_type(&vs[0]);
        let v = parse_type(&vs[1]);
        can::Type::Result(Box::new(e), Box::new(v))
    } else if spells(&cs, 0, n, &vec!['S', 'e', 't']) && vs.len() >= 1 {
        proof {
            assert(decreases_to!(*vs => vs[0]));
        }
        can::Type::SetOf(Box::new(parse_type(&vs[0])))
    } else if spells(&cs, 0, n, &vec!['L', 'i', 's', 't']) && vs.len() >= 1 {
        proof {
            assert(decreases_to!(*vs => vs[0]));
        }
        can::Type::List(Box::new(parse_type(&vs[0])))
    } else if spells(&cs, 0, n, &vec!['O', 'p', 't', 'i', 'o', 'n']) && vs.len() >= 1 {
        proof {
            assert(decreases_to!(*vs => vs[0]));
        }
        can::Type::Option(Box::new(parse_type(&vs[0])))
    } else {
        let ghost target = Seq::new(
            vs@.len(),
            |i: int|
                if 0 <= i < vs@.len() {
                    resolve_type(vs@[i]@)
                } else {
                    can::TypeView::String
                },
        );
        let mut args: Vec<can::Type> = Vec::new();
        let mut i: usize = 0;
        while i < vs.len()
            invariant
                i <= vs.len(),
                *vs == type_.variables,
                target.len() == vs@.len(),
                forall|k: int| 0 <= k < vs@.len() ==> target[k] == resolve_type(#[trigger] vs@[k]@),
                args@.len() == i,
                forall|k: int| 0 <= k < i ==> #[trigger] args@[k]@ == target[k],
            decreases vs.len() - i,
        {
            proof {
                assert(decreases_to!(*type_ => type_.variables));
                assert(decreases_to!(*vs => vs[i as int]));
            }
            args.push(parse_type(&vs[i]));
            i += 1;
        }
        let name = type_.name.value.clone();
        proof {
            can::lemma_ref_view(name, args);
            assert(args@.map_values(|x: can::Type| x@) =~= target);
            assert(resolve_type(type_@)->Ref_1 =~= target);
        }
        can::Type::Ref(name, args)
    }
}


/// The variadic operator that a symbol names.
pub open spec fn nary_op(s: Seq<char>) -> Option<Op> {
    if s == seq!['<'] {
        Some(Op::Lt)
    } else if s == seq!['<', '='] {
        Some(Op::Le)
    } else if s == seq!['='] {
        Some(Op::Eq)
    } else if s == seq!['>', '='] {
        Some(Op::Ge)
    } else if s == seq!['>'] {
        Some(Op::Gt)
    } else if s == seq!['o', 'r'] {
        Some(Op::Or)
    } else if s == seq!['a', 'n', 'd'] {
        Some(Op::And)
    } else if s == seq!['x', 'o', 'r'] {
        Some(Op::Xor)
    } else {
        None
    }
}

/// The unary operator that a symbol names.
pub open spec fn unary_op(s: Seq<char>) -> Option<UnaryOp> {
    if s == seq!['l', 'e', 'n'] {
        Some(UnaryOp::Len)
    } else if s == seq!['b', 'l', 'a', 'n', 'k'] {
        Some(UnaryOp::Blank)
    } else if s == seq!['n', 'o', 't'] {
        Some(UnaryOp::Not)
    } else {
        None
    }
}

/// The constraint that an annotation expression stands for.
pub open spec fn constraint_of(e: ExprView) -> Result<ConstraintView, canonicalize::Annotation>
    decreases e, 2int,
{
    match e {
        ExprView::Boolean(_, b) => Ok(ConstraintView::Boolean(b)),
        ExprView::Number(_, s) => Ok(ConstraintView::Number(s)),
        ExprView::String(_, s) => Ok(ConstraintView::String(s)),
        ExprView::Keyword(_, s) => Ok(ConstraintView::String(s)),
        ExprView::Symbol(r, s) => if s.len() > 0 && s[0] == '.' {
            Ok(ConstraintView::Access(s.subrange(1, s.len() as int)))
        } else {
            Err(canonicalize::Annotation::UnknownSymbol(r))
        },
        ExprView::List(r, items) => if items.len() > 0 && items[0] is Symbol {
            let op = items[0]->Symbol_1;
            match nary_op(op) {
                Some(o) => match constraints_from(items, 1, Seq::empty()) {
                    Ok(cs) => Ok(ConstraintView::Nary(o, cs)),
                    Err(x) => Err(x),
                },
                None => match unary_op(op) {
                    Some(u) => if items.len() > 1 {
                        match constraint_of(items[1]) {
                            Ok(c) => Ok(ConstraintView::Unary(u, Box::new(c))),
                            Err(x) => Err(x),
                        }
                    } else {
                        Err(canonicalize::Annotation::Unsupported(r))
                    },
                    None => Err(canonicalize::Annotation::UnknownSymbol(items[0]->Symbol_0)),
                },
            }
        } else {
            Err(canonicalize::Annotation::Unsupported(r))
        },
        ExprView::Dict(_, ps) => match pairs_from(ps, 0, Seq::empty()) {
            Ok(x) => Ok(ConstraintView::Dict(x)),
            Err(x) => Err(x),
        },
    }
}

/// The constraints of `s[i..]`, after `acc`; the first error, if any.
pub open spec fn constraints_from(s: Seq<ExprView>, i: int, acc: Seq<ConstraintView>) -> Result<
    Seq<ConstraintView>,
    canonicalize::Annotation,
>
    decreases s, s.len() - i,
{
    if 0 <= i < s.len() {
        match constraint_of(s[i]) {
            Ok(c) => constraints_from(s, i + 1, acc.push(c)),
            Err(x) => Err(x),
        }
    } else {
        Ok(acc)
    }
}

/// The key-value constraints of `ps[i..]`, after `acc`.
pub open spec fn pairs_from(
    ps: Seq<(ExprView, ExprView)>,
    i: int,
    acc: Seq<(ConstraintView, ConstraintView)>,
) -> Result<Seq<(ConstraintView, ConstraintView)>, canonicalize::Annotation>
    decreases ps, ps.len() - i,
{
    if 0 <= i < ps.len() {
        match constraint_of(ps[i].0) {
            Ok(k) => match constraint_of(ps[i].1) {
                Ok(v) => pairs_from(ps, i + 1, acc.push((k, v))),
                Err(x) => Err(x),
            },
            Err(x) => Err(x),
        }
    } else {
        Ok(acc)
    }
}

fn nary_op_of(cs: &Vec<char>) -> (r: Option<Op>)
    ensures
        r == nary_op(cs@),
{
    let n = cs.len();
    if n == 1 {
        assert(cs@ =~= seq![cs@[0]]);
        if cs[0] == '<' {
            Some(Op::Lt)
        } else if cs[0] == '=' {
            Some(Op::Eq)
        } else if cs[0] == '>' {
            Some(Op::Gt)
        } else {
            None
        }
    } else if n == 2 {
        assert(cs@ =~= seq![cs@[0], cs@[1]]);
        if cs[0] == '<' && cs[1] == '=' {
            Some(Op::Le)
        } else if cs[0] == '>' && cs[1] == '=' {
            Some(Op::Ge)
        } else if cs[0] == 'o' && cs[1] == 'r' {
            Some(Op::Or)
        } else {
            None
        }
    } else if n == 3 {
        assert(cs@ =~= seq![cs@[0], cs@[1], cs@[2]]);
        if cs[0] == 'a' && cs[1] == 'n' && cs[2] == 'd' {
            Some(Op::And)
        } else if cs[0] == 'x' && cs[1] == 'o' && cs[2] == 'r' {
            Some(Op::Xor)
        } else {
            None
        }
    } else {
        None
    }
}

fn unary_op_of(cs: &Vec<char>) -> (r: Option<UnaryOp>)
    ensures
        r == unary_op(cs@),
{
    let n = cs.len();
    proof {
        assert(cs@.subrange(0, n as int) =~= cs@);
    }
    if spells(cs, 0, n, &vec!['l', 'e', 'n']) {
        Some(UnaryOp::Len)
    } else if spells(cs, 0, n, &vec!['b', 'l', 'a', 'n', 'k']) {
        Some(UnaryOp::Blank)
    } else if spells(cs, 0, n, &vec!['n', 'o', 't']) {
        Some(UnaryOp::Not)
    } else {
        None
    }
}

fn nary(op: Op, cs: Vec<Constraint>) -> (r: Constraint)
    ensures
        r@ == ConstraintView::Nary(op, cs@.map_values(|x: Constraint| x@)),
{
    proof {
        lemma_nary_view(op, cs);
    }
    match op {
        Op::Or => Constraint::Or(cs),
        Op::Lt => Constraint::Lt(cs),
        Op::Eq => Constraint::Eq(cs),
        Op::Le => Constraint::Le(cs),
        Op::Gt => Constraint::Gt(cs),
        Op::Ge => Constraint::Ge(cs),
        Op::And => Constraint::And(cs),
        Op::Xor => Constraint::Xor(cs),
    }
}

fn unary(op: UnaryOp, c: Constraint) -> (r: Constraint)
    ensures
        r@ == ConstraintView::Unary(op, Box::new(c@)),
{
    match op {
        UnaryOp::Len => Constraint::Len(Box::new(c)),
        UnaryOp::Blank => Constraint::Blank(Box::new(c)),
        UnaryOp::Not => Constraint::Not(Box::new(c)),
    }
}

/// Reads an annotation expression as a constraint.
pub fn parse_constraint(expr: &Expr) -> (r: Result<Constraint, canonicalize::Annotation>)
    ensures
        res_view(r) == constraint_of(expr@),
    decreases expr,
{
    broadcast use vstd::std_specs::vec::axiom_vec_index_decreases;

    match expr {
        Expr::Boolean(_, b) => Ok(Constraint::Boolean(*b)),
        Expr::Number(_, s) => Ok(Constraint::Number(s.clone())),
        Expr::String(_, s) => Ok(Constraint::String(s.clone())),
        Expr::Keyword(_, s) => Ok(Constraint::String(s.clone())),
        Expr::Symbol(r, s) => {
            let cs = chars_of(s.as_str());
            if cs.len() > 0 && cs[0] == '.' {
                Ok(Constraint::Access(string_of(&cs, 1, cs.len())))
            } else {
                Err(canonicalize::Annotation::UnknownSymbol(*r))
            }
        },
        Expr::List(r, items) => {
            proof {
                src::Expr::lemma_list_view(*r, *items);
                assert(decreases_to!(*expr => expr->List_1));
            }
            if items.len() == 0 {
                return Err(canonicalize::Annotation::Unsupported(*r));
            }
            let (head_region, op) = match &items[0] {
                Expr::Symbol(hr, op) => (*hr, chars_of(op.as_str())),
                _ => {
                    return Err(canonicalize::Annotation::Unsupported(*r));
                },
            };
            match nary_op_of(&op) {
                Some(o) => {
                    let ghost iv = items@.map_values(|x: Expr| x@);
                    let mut cs: Vec<Constraint> = Vec::new();
                    let mut i: usize = 1;
                    assert(cs@.map_values(|x: Constraint| x@) =~= Seq::empty());
                    while i < items.len()
                        invariant
                            1 <= i <= items.len(),
                            iv[0] is Symbol,
                            nary_op(iv[0]->Symbol_1) == Some(o),
                            iv == items@.map_values(|x: Expr| x@),
                            expr_view(*expr) == ExprView::List(*r, iv),
                            *expr == Expr::List(*r, *items),
                            constraints_from(iv, 1, Seq::empty()) == constraints_from(
                                iv,
                                i as int,
                                cs@.map_values(|x: Constraint| x@),
                            ),
                        decreases items.len() - i,
                    {
                        proof {
                            assert(decreases_to!(*expr => expr->List_1));
                            assert(decreases_to!(*items => items[i as int]));
                        }
                        match parse_constraint(&items[i]) {
                            Ok(c) => {
                                let ghost before = cs@;
                                let ghost cv = c@;
                                cs.push(c);
                                assert(cs@.map_values(|x: Constraint| x@) =~= before.map_values(
                                    |x: Constraint| x@,
                                ).push(cv));
                            },
                            Err(x) => {
                                return Err(x);
                            },
                        }
                        i += 1;
                    }
                    Ok(nary(o, cs))
                },
                None => match unary_op_of(&op) {
                    Some(u) => {
                        if items.len() > 1 {
                            proof {
                                assert(decreases_to!(*items => items[1]));
                            }
                            match parse_constraint(&items[1]) {
                                Ok(c) => Ok(unary(u, c)),
                                Err(x) => Err(x),
                            }
                        } else {
                            Err(canonicalize::Annotation::Unsupported(*r))
                        }
                    },
                    None => Err(canonicalize::Annotation::UnknownSymbol(head_region)),
                },
            }
        },
        Expr::Dict(r, ps) => {
            proof {
                src::Expr::lemma_dict_view(*r, *ps);
            }
            let ghost pv = ps@.map_values(|x: (Expr, Expr)| (x.0@, x.1@));
            let mut out: Vec<(Constraint, Constraint)> = Vec::new();
            let mut i: usize = 0;
            assert(out@.map_values(|x: (Constraint, Constraint)| (x.0@, x.1@)) =~= Seq::empty());
            while i < ps.len()
                invariant
                    i <= ps.len(),
                    pv == ps@.map_values(|x: (Expr, Expr)| (x.0@, x.1@)),
                    *expr == Expr::Dict(*r, *ps),
                    expr_view(*expr) == ExprView::Dict(*r, pv),
                    pairs_from(pv, 0, Seq::empty()) == pairs_from(
                        pv,
                        i as int,
                        out@.map_values(|x: (Constraint, Constraint)| (x.0@, x.1@)),
                    ),
                decreases ps.len() - i,
            {
                proof {
                    assert(decreases_to!(*expr => expr->Dict_1));
                    assert(decreases_to!(*ps => ps[i as int]));
                    assert(decreases_to!(ps[i as int] => ps[i as int].0));
                    assert(decreases_to!(ps[i as int] => ps[i as int].1));
                }
                let k = match parse_constraint(&ps[i].0) {
                    Ok(k) => k,
                    Err(x) => {
                        return Err(x);
                    },
                };
                let v = match parse_constraint(&ps[i].1) {
                    Ok(v) => v,
                    Err(x) => {
                        return Err(x);
                    },
                };
                let ghost before = out@;
                let ghost kv = (k@, v@);
                out.push((k, v));
                assert(out@.map_values(|x: (Constraint, Constraint)| (x.0@, x.1@)) =~= before.map_values(
                    |x: (Constraint, Constraint)| (x.0@, x.1@),
                ).push(kv));
                i += 1;
            }
            proof {
                lemma_dict_view(out);
            }
            Ok(Constraint::Dict(out))
        },
    }
}


/// `o` lists every node of the graph `adj` once, each after all the nodes
/// that it depends on (`adj[p]` holds the nodes that `p` depends on).
pub open spec fn valid_order(adj: Seq<Seq<usize>>, o: Seq<usize>) -> bool {
    &&& o.len() == adj.len()
    &&& forall|a: int| 0 <= a < o.len() ==> #[trigger] o[a] < adj.len()
    &&& forall|a: int, b: int| 0 <= a < b < o.len() ==> o[a] != o[b]
    &&& forall|a: int, b: int|
        0 <= a < o.len() && 0 <= b < o.len() && #[trigger] adj[o[a] as int].contains(#[trigger] o[b])
            ==> b < a
}

/// Every dependency in `adj` is a node of the graph.
pub open spec fn graph_wf(adj: Seq<Seq<usize>>) -> bool {
    forall|p: int, k: int|
        0 <= p < adj.len() && 0 <= k < adj[p].len() ==> #[trigger] adj[p][k] < adj.len()
}

pub open spec fn adj_view(adj: &Vec<Vec<usize>>) -> Seq<Seq<usize>> {
    adj@.map_values(|v: Vec<usize>| v@)
}

/// A sequence of distinct nodes below `n` that misses a node below `n` is
/// shorter than `n`; one that holds every node below `n` is at least as long.
proof fn lemma_counting(o: Seq<usize>, n: nat)
    requires
        n <= usize::MAX,
        forall|a: int| 0 <= a < o.len() ==> #[trigger] o[a] < n,
        forall|a: int, b: int| 0 <= a < b < o.len() ==> o[a] != o[b],
    ensures
        (exists|x: usize| x < n && !o.contains(x)) ==> o.len() < n,
        (forall|x: usize| x < n ==> o.contains(x)) ==> o.len() >= n,
        o.len() <= n,
{
    let s = o.map_values(|v: usize| v as int);
    assert(s.no_duplicates()) by {
        assert forall|a: int, b: int| 0 <= a < s.len() && 0 <= b < s.len() && a != b implies s[a]
            != s[b] by {
            if a < b {
                assert(o[a] != o[b]);
            } else {
                assert(o[b] != o[a]);
            }
        }
    }
    s.unique_seq_to_set();
    lemma_int_range(0, n as int);
    let range = set_int_range(0, n as int);
    assert(s.to_set().subset_of(range)) by {
        assert forall|y: int| s.to_set().contains(y) implies range.contains(y) by {
            let a = choose|a: int| 0 <= a < s.len() && s[a] == y;
            assert(o[a] < n);
        }
    }
    lemma_len_subset(s.to_set(), range);
    if exists|x: usize| x < n && !o.contains(x) {
        let x = choose|x: usize| x < n && !o.contains(x);
        let smaller = range.remove(x as int);
        assert(s.to_set().subset_of(smaller)) by {
            assert forall|y: int| s.to_set().contains(y) implies smaller.contains(y) by {
                let a = choose|a: int| 0 <= a < s.len() && s[a] == y;
                if y == x as int {
                    assert(o[a] == x);
                    assert(o.contains(x));
                }
            }
        }
        lemma_len_subset(s.to_set(), smaller);
    }
    if forall|x: usize| x < n ==> o.contains(x) {
        assert(range.subset_of(s.to_set())) by {
            assert forall|y: int| range.contains(y) implies s.to_set().contains(y) by {
                assert(0 <= y < n);
                let x = y as usize;
                assert(o.contains(x));
                let a = choose|a: int| 0 <= a < o.len() && o[a] == x;
                assert(s[a] == y);
            }
        }
        lemma_len_subset(range, s.to_set());
    }
}

/// A sequence of `n` distinct nodes below `n` holds every node below `n`.
pub proof fn lemma_covers(o: Seq<usize>, n: nat)
    requires
        n <= usize::MAX,
        o.len() == n,
        forall|a: int| 0 <= a < o.len() ==> #[trigger] o[a] < n,
        forall|a: int, b: int| 0 <= a < b < o.len() ==> o[a] != o[b],
    ensures
        forall|x: usize| x < n ==> o.contains(x),
{
    lemma_counting(o, n);
}

/// `o` lists distinct nodes of `adj`, each after all its dependencies.
pub open spec fn resolves(adj: Seq<Seq<usize>>, o: Seq<usize>) -> bool {
    &&& forall|a: int| 0 <= a < o.len() ==> #[trigger] o[a] < adj.len()
    &&& forall|a: int, b: int| 0 <= a < b < o.len() ==> o[a] != o[b]
    &&& forall|a: int, k: int|
        0 <= a < o.len() && 0 <= k < adj[o[a] as int].len() ==> #[trigger] placed_before(adj, o, a, k)
}

/// The `k`-th dependency of `o[a]` stands in `o` before it.
pub open spec fn placed_before(adj: Seq<Seq<usize>>, o: Seq<usize>, a: int, k: int) -> bool {
    exists|b: int| 0 <= b < a && o[b] == adj[o[a] as int][k]
}

/// Node `x` can be ordered after all its dependencies: it lies on no
/// dependency cycle and depends on none.
#[verifier::opaque]
pub open spec fn resolvable(adj: Seq<Seq<usize>>, x: usize) -> bool {
    exists|o: Seq<usize>| resolves(adj, o) && o.contains(x)
}

/// Every node of a resolving sequence is placed, where each node left out
/// of `placed` has a dependency left out too.
proof fn lemma_resolved_placed(adj: Seq<Seq<usize>>, placed: Seq<bool>, o: Seq<usize>, a: int)
    requires
        graph_wf(adj),
        placed.len() == adj.len(),
        resolves(adj, o),
        0 <= a < o.len(),
        forall|p: int|
            0 <= p < adj.len() && !placed[p] ==> exists|k: int|
                0 <= k < adj[p].len() && !placed[#[trigger] adj[p][k] as int],
    ensures
        placed[o[a] as int],
    decreases a,
{
    let p = o[a] as int;
    assert forall|k: int| 0 <= k < adj[p].len() implies placed[#[trigger] adj[p][k] as int] by {
        assert(placed_before(adj, o, a, k));
        let b = choose|b: int| 0 <= b < a && o[b] == adj[o[a] as int][k];
        lemma_resolved_placed(adj, placed, o, b);
    }
}

/// Where no node that is left out of `placed` has all its dependencies
/// placed, no valid order exists.
proof fn lemma_stuck(adj: Seq<Seq<usize>>, placed: Seq<bool>, u: usize)
    requires
        adj.len() <= usize::MAX,
        graph_wf(adj),
        placed.len() == adj.len(),
        u < adj.len(),
        !placed[u as int],
        forall|p: int|
            0 <= p < adj.len() && !placed[p] ==> exists|k: int|
                0 <= k < adj[p].len() && !placed[#[trigger] adj[p][k] as int],
    ensures
        !exists|o: Seq<usize>| valid_order(adj, o),
{
    if exists|o: Seq<usize>| valid_order(adj, o) {
        let o = choose|o: Seq<usize>| valid_order(adj, o);
        lemma_counting(o, adj.len());
        assert(forall|x: usize| x < adj.len() ==> o.contains(x));
        assert(o.contains(u));
        let a = choose|a: int| 0 <= a < o.len() && o[a] == u;
        lemma_descent(adj, placed, o, a);
    }
}

proof fn lemma_descent(adj: Seq<Seq<usize>>, placed: Seq<bool>, o: Seq<usize>, a: int)
    requires
        graph_wf(adj),
        placed.len() == adj.len(),
        valid_order(adj, o),
        forall|x: usize| x < adj.len() ==> o.contains(x),
        0 <= a < o.len(),
        forall|p: int|
            0 <= p < adj.len() && !placed[p] ==> exists|k: int|
                0 <= k < adj[p].len() && !placed[#[trigger] adj[p][k] as int],
    ensures
        placed[o[a] as int],
    decreases a,
{
    let p = o[a] as int;
    if !placed[p] {
        let k = choose|k: int| 0 <= k < adj[p].len() && !placed[#[trigger] adj[p][k] as int];
        let q = adj[p][k];
        assert(o.contains(q));
        let b = choose|b: int| 0 <= b < o.len() && o[b] == q;
        assert(adj[o[a] as int].contains(o[b]));
        lemma_descent(adj, placed, o, b);
    }
}

/// Whether every node in `deps` is placed.
fn all_placed(deps: &Vec<usize>, placed: &Vec<bool>) -> (r: bool)
    requires
        forall|k: int| 0 <= k < deps.len() ==> #[trigger] deps[k] < placed.len(),
    ensures
        r == (forall|k: int| 0 <= k < deps.len() ==> placed[#[trigger] deps[k] as int]),
{
    let mut k: usize = 0;
    while k < deps.len()
        invariant
            k <= deps.len(),
            forall|m: int| 0 <= m < deps.len() ==> #[trigger] deps[m] < placed.len(),
            forall|m: int| 0 <= m < k ==> placed[#[trigger] deps[m] as int],
        decreases deps.len() - k,
    {
        if !placed[deps[k]] {
            return false;
        }
        k += 1;
    }
    true
}

/// Orders the nodes of a dependency graph so that each comes after the
/// nodes it depends on: at each step the first node, by index, whose
/// dependencies are all placed. Fails with a node that cannot be placed
/// where the dependencies form a cycle.
pub fn sorted_by_topology(adj: &Vec<Vec<usize>>) -> (r: Result<Vec<usize>, usize>)
    requires
        graph_wf(adj_view(adj)),
    ensures
        match r {
            Ok(o) => valid_order(adj_view(adj), o@),
            Err(u) => u < adj.len() && !(exists|o: Seq<usize>| valid_order(adj_view(adj), o))
                && !resolvable(adj_view(adj), u) && (forall|x: usize|
                x < u ==> resolvable(adj_view(adj), x)),
        },
{
    let ghost g = adj_view(adj);
    let n = adj.len();
    let mut placed: Vec<bool> = Vec::new();
    while placed.len() < n
        invariant
            placed.len() <= n,
            forall|x: int| 0 <= x < placed.len() ==> !placed[x],
        decreases n - placed.len(),
    {
        placed.push(false);
    }
    let mut order: Vec<usize> = Vec::new();
    loop
        invariant
            n == adj.len(),
            g == adj_view(adj),
            graph_wf(g),
            placed.len() == n,
            forall|a: int| 0 <= a < order.len() ==> #[trigger] order[a] < n,
            forall|a: int, b: int| 0 <= a < b < order.len() ==> order[a] != order[b],
            forall|x: int| 0 <= x < n ==> (placed[x] <==> order@.contains(x as usize)),
            forall|a: int, b: int|
                0 <= a < order.len() && 0 <= b < order.len() && #[trigger] g[order[a] as int].contains(
                    #[trigger] order[b],
                ) ==> b < a,
            forall|a: int, k: int|
                0 <= a < order.len() && 0 <= k < g[order[a] as int].len() ==> placed[#[trigger] g[order[a] as int][k] as int],
        decreases n - order.len(),
    {
        let mut p: usize = 0;
        let mut first_unplaced: usize = n;
        let mut found = false;
        while p < n && !found
            invariant
                n == adj.len(),
                g == adj_view(adj),
                graph_wf(g),
                placed.len() == n,
                p <= n,
                found ==> p < n && !placed[p as int] && forall|k: int|
                    0 <= k < g[p as int].len() ==> placed[#[trigger] g[p as int][k] as int],
                first_unplaced == n || (first_unplaced < n && !placed[first_unplaced as int]),
                first_unplaced == n ==> forall|x: int| 0 <= x < p ==> placed[x],
                forall|x: int| 0 <= x < p && x < first_unplaced ==> placed[x],
                first_unplaced == n || first_unplaced <= p,
                forall|x: int|
                    0 <= x < p && !placed[x] ==> exists|k: int|
                        0 <= k < g[x].len() && !placed[#[trigger] g[x][k] as int],
            decreases n - p + (if found {
                0int
            } else {
                1int
            }),
        {
            let ghost p0 = p;
            let ghost fu0 = first_unplaced;
            if !placed[p] {
                if first_unplaced == n {
                    first_unplaced = p;
                }
                assert(adj[p as int]@ == g[p as int]);
                if all_placed(&adj[p], &placed) {
                    found = true;
                } else {
                    p += 1;
                }
            } else {
                p += 1;
            }
            assert forall|x: int| 0 <= x < p && x < first_unplaced implies placed[x] by {
                if x < p0 {
                    if fu0 == n {
                        assert(placed[x]);
                    } else {
                        assert(x < fu0);
                    }
                }
            }
        }
        if !found {
            if first_unplaced == n {
                proof {
                    lemma_counting(order@, n as nat);
                    assert forall|x: usize| x < n implies order@.contains(x) by {
                        assert(placed[x as int]);
                    }
                    assert(order@.len() >= n);
                }
                assert(valid_order(g, order@));
                return Ok(order);
            }
            proof {
                lemma_stuck(g, placed@, first_unplaced);
                assert(forall|a: int| 0 <= a < order@.len() ==> #[trigger] order@[a] < g.len());
                assert(forall|a: int, b: int| 0 <= a < b < order@.len() ==> order@[a] != order@[b]);
                assert forall|a: int, k: int|
                    0 <= a < order@.len() && 0 <= k < g[order@[a] as int].len() implies #[trigger] placed_before(g, order@, a, k) by {
                    let q = g[order@[a] as int][k];
                    assert(placed[q as int]);
                    assert(order@.contains(q));
                    let b = choose|b: int| 0 <= b < order@.len() && order@[b] == q;
                    assert(g[order[a] as int].contains(order[b]));
                }
                assert(resolves(g, order@));
                reveal(resolvable);
                assert forall|x: usize| x < first_unplaced implies resolvable(g, x) by {
                    assert(placed[x as int]);
                    assert(order@.contains(x));
                }
                if resolvable(g, first_unplaced) {
                    let o = choose|o: Seq<usize>| resolves(g, o) && o.contains(first_unplaced);
                    let a = choose|a: int| 0 <= a < o.len() && o[a] == first_unplaced;
                    lemma_resolved_placed(g, placed@, o, a);
                }
            }
            return Err(first_unplaced);
        }
        proof {
            lemma_counting(order@, n as nat);
            assert(!order@.contains(p));
        }
        let ghost old_order = order@;
        let ghost old_placed = placed@;
        placed.set(p, true);
        order.push(p);
        proof {
            assert forall|x: int| 0 <= x < n implies (placed[x] <==> order@.contains(x as usize)) by {
                if x == p as int {
                    assert(order@[old_order.len() as int] == p);
                } else if old_placed[x] {
                    let a = choose|a: int| 0 <= a < old_order.len() && old_order[a] == x as usize;
                    assert(order@[a] == x as usize);
                } else {
                    if order@.contains(x as usize) {
                        let a = choose|a: int| 0 <= a < order@.len() && order@[a] == x as usize;
                        assert(old_order[a] == x as usize);
                    }
                }
            }
            assert forall|a: int, b: int|
                0 <= a < order.len() && 0 <= b < order.len() && #[trigger] g[order[a] as int].contains(
                    #[trigger] order[b],
                ) implies b < a by {
                let m = old_order.len() as int;
                if a == m {
                    let k = choose|k: int| 0 <= k < g[p as int].len() && g[p as int][k] == order[b];
                    assert(old_placed[g[p as int][k] as int]);
                    if b == m {
                        assert(!old_placed[p as int]);
                    }
                } else if b == m {
                    let k = choose|k: int|
                        0 <= k < g[order[a] as int].len() && g[order[a] as int][k] == order[b];
                    assert(old_placed[g[old_order[a] as int][k] as int]);
                }
            }
        }
    }
}


pub open spec fn constraints_view(s: Seq<Constraint>) -> Seq<ConstraintView> {
    s.map_values(|c: Constraint| c@)
}

pub open spec fn exprs_view(s: Seq<Expr>) -> Seq<ExprView> {
    s.map_values(|e: Expr| e@)
}

/// What an annotation is read as: a `check` annotation's constraints, or
/// the annotation itself, for generators to read.
pub open spec fn annotation_of(e: ExprView) -> Result<can::AnnotationView, canonicalize::Annotation> {
    match e {
        ExprView::List(r, items) => if items.len() == 0 {
            Err(canonicalize::Annotation::Empty(r))
        } else if items[0] is Symbol && items[0]->Symbol_1 == seq!['c', 'h', 'e', 'c', 'k'] {
            match constraints_from(items, 1, Seq::empty()) {
                Ok(cs) => Ok(can::AnnotationView::Check(cs)),
                Err(x) => Err(x),
            }
        } else {
            Ok(can::AnnotationView::Custom(e))
        },
        _ => Ok(can::AnnotationView::Custom(e)),
    }
}

/// Reading the first `n` annotations: the constraints of the `check`
/// annotations, the other annotations, and the errors, each in order.
pub open spec fn annotations_read(anns: Seq<ExprView>, n: int) -> (
    Seq<ConstraintView>,
    Seq<ExprView>,
    Seq<canonicalize::Annotation>,
)
    decreases n,
{
    if 0 < n <= anns.len() {
        let (cs, os, es) = annotations_read(anns, n - 1);
        match annotation_of(anns[n - 1]) {
            Ok(can::AnnotationView::Check(c)) => (cs + c, os, es),
            Ok(can::AnnotationView::Custom(x)) => (cs, os.push(x), es),
            Err(x) => (cs, os, es.push(x)),
        }
    } else {
        (Seq::empty(), Seq::empty(), Seq::empty())
    }
}

pub open spec fn read_all(anns: Seq<ExprView>) -> (
    Seq<ConstraintView>,
    Seq<ExprView>,
    Seq<canonicalize::Annotation>,
) {
    annotations_read(anns, anns.len() as int)
}

/// A copy of an expression.
pub fn canonicalize_expr(expr: &Expr) -> (r: Expr)
    ensures
        r@ == expr@,
    decreases expr,
{
    broadcast use vstd::std_specs::vec::axiom_vec_index_decreases;

    match expr {
        Expr::Boolean(r, b) => Expr::Boolean(*r, *b),
        Expr::Number(r, s) => Expr::Number(*r, s.clone()),
        Expr::String(r, s) => Expr::String(*r, s.clone()),
        Expr::Keyword(r, s) => Expr::Keyword(*r, s.clone()),
        Expr::Symbol(r, s) => Expr::Symbol(*r, s.clone()),
        Expr::List(r, items) => {
            proof {
                src::Expr::lemma_list_view(*r, *items);
            }
            let mut out: Vec<Expr> = Vec::new();
            let mut i: usize = 0;
            while i < items.len()
                invariant
                    i <= items.len(),
                    *expr == Expr::List(*r, *items),
                    out@.len() == i,
                    forall|k: int| 0 <= k < i ==> #[trigger] out@[k]@ == items@[k]@,
                decreases items.len() - i,
            {
                proof {
                    assert(decreases_to!(*expr => expr->List_1));
                    assert(decreases_to!(*items => items[i as int]));
                }
                out.push(canonicalize_expr(&items[i]));
                i += 1;
            }
            proof {
                src::Expr::lemma_list_view(*r, out);
                assert(out@.map_values(|x: Expr| x@) =~= items@.map_values(|x: Expr| x@));
            }
            Expr::List(*r, out)
        },
        Expr::Dict(r, ps) => {
            proof {
                src::Expr::lemma_dict_view(*r, *ps);
            }
            let mut out: Vec<(Expr, Expr)> = Vec::new();
            let mut i: usize = 0;
            while i < ps.len()
                invariant
                    i <= ps.len(),
                    *expr == Expr::Dict(*r, *ps),
                    out@.len() == i,
                    forall|k: int|
                        0 <= k < i ==> #[trigger] out@[k].0@ == ps@[k].0@ && out@[k].1@ == ps@[k].1@,
                decreases ps.len() - i,
            {
                proof {
                    assert(decreases_to!(*expr => expr->Dict_1));
                    assert(decreases_to!(*ps => ps[i as int]));
                    assert(decreases_to!(ps[i as int] => ps[i as int].0));
                    assert(decreases_to!(ps[i as int] => ps[i as int].1));
                }
                let k = canonicalize_expr(&ps[i].0);
                let v = canonicalize_expr(&ps[i].1);
                out.push((k, v));
                i += 1;
            }
            proof {
                src::Expr::lemma_dict_view(*r, out);
                assert(out@.map_values(|x: (Expr, Expr)| (x.0@, x.1@)) =~= ps@.map_values(
                    |x: (Expr, Expr)| (x.0@, x.1@),
                ));
            }
            Expr::Dict(*r, out)
        },
    }
}

/// The constraints of `args[from..]`.
fn parse_constraints(args: &Vec<Expr>, from: usize) -> (r: Result<
    Vec<Constraint>,
    canonicalize::Annotation,
>)
    ensures
        match r {
            Ok(cs) => constraints_from(exprs_view(args@), from as int, Seq::empty()) == Ok::<
                Seq<ConstraintView>,
                canonicalize::Annotation,
            >(constraints_view(cs@)),
            Err(x) => constraints_from(exprs_view(args@), from as int, Seq::empty()) == Err::<
                Seq<ConstraintView>,
                canonicalize::Annotation,
            >(x),
        },
{
    let ghost av = exprs_view(args@);
    let mut cs: Vec<Constraint> = Vec::new();
    assert(constraints_view(cs@) =~= Seq::empty());
    let mut i = from;
    while i < args.len()
        invariant
            from <= i,
            av == exprs_view(args@),
            constraints_from(av, from as int, Seq::empty()) == constraints_from(
                av,
                i as int,
                constraints_view(cs@),
            ),
        decreases args.len() - i,
    {
        match parse_constraint(&args[i]) {
            Ok(c) => {
                let ghost before = cs@;
                let ghost cv = c@;
                cs.push(c);
                assert(constraints_view(cs@) =~= constraints_view(before).push(cv));
            },
            Err(x) => {
                return Err(x);
            },
        }
        i += 1;
    }
    Ok(cs)
}

/// Reads one annotation.
pub fn parse_annotation(annotation: &src::Annotation) -> (r: Result<
    can::Annotation,
    canonicalize::Annotation,
>)
    ensures
        res_view(r) == annotation_of(annotation.expr@),
{
    match &annotation.expr {
        Expr::List(r, items) => {
            proof {
                src::Expr::lemma_list_view(*r, *items);
            }
            if items.len() == 0 {
                return Err(canonicalize::Annotation::Empty(*r));
            }
            let is_check = match &items[0] {
                Expr::Symbol(_, head) => {
                    let cs = chars_of(head.as_str());
                    proof {
                        assert(cs@.subrange(0, cs@.len() as int) =~= cs@);
                    }
                    spells(&cs, 0, cs.len(), &vec!['c', 'h', 'e', 'c', 'k'])
                },
                _ => false,
            };
            if is_check {
                match parse_constraints(items, 1) {
                    Ok(cs) => Ok(can::Annotation::Check(cs)),
                    Err(x) => Err(x),
                }
            } else {
                Ok(can::Annotation::Custom(canonicalize_expr(&annotation.expr)))
            }
        },
        _ => Ok(can::Annotation::Custom(canonicalize_expr(&annotation.expr))),
    }
}

/// Reads a list of annotations into the constraints of the `check`
/// annotations, the other annotations, and the errors.
pub fn canonicalize_annotations(annotations: &Vec<src::Annotation>) -> (r: (
    Vec<Constraint>,
    Vec<Expr>,
    Vec<canonicalize::Annotation>,
))
    ensures
        (constraints_view(r.0@), exprs_view(r.1@), r.2@) == read_all(
            src::annotations_view(annotations@),
        ),
{
    let ghost av = src::annotations_view(annotations@);
    let mut constraints: Vec<Constraint> = Vec::new();
    let mut other: Vec<Expr> = Vec::new();
    let mut errors: Vec<canonicalize::Annotation> = Vec::new();
    assert(constraints_view(constraints@) =~= Seq::empty());
    assert(exprs_view(other@) =~= Seq::empty());
    let mut i: usize = 0;
    while i < annotations.len()
        invariant
            i <= annotations.len(),
            av == src::annotations_view(annotations@),
            (constraints_view(constraints@), exprs_view(other@), errors@) == annotations_read(
                av,
                i as int,
            ),
        decreases annotations.len() - i,
    {
        let ghost cb = constraints@;
        let ghost ob = other@;
        match parse_annotation(&annotations[i]) {
            Ok(can::Annotation::Check(cs)) => {
                let mut cs = cs;
                let ghost added = cs@;
                constraints.append(&mut cs);
                assert(constraints_view(constraints@) =~= constraints_view(cb) + constraints_view(
                    added,
                ));
            },
            Ok(can::Annotation::Custom(x)) => {
                let ghost xv = x@;
                other.push(x);
                assert(exprs_view(other@) =~= exprs_view(ob).push(xv));
            },
            Err(x) => {
                errors.push(x);
            },
        }
        i += 1;
    }
    (constraints, other, errors)
}


/// The other properties that a property's constraints access.
pub open spec fn property_deps(p: src::PropertyView) -> Set<Seq<char>> {
    let cs = read_all(p.annotations).0;
    accessed_seq(cs, cs.len() as int).remove(p.name.value)
}

/// `q` is the canonical form of the source property `p`.
pub open spec fn canonical_property(p: src::PropertyView, q: can::Property) -> bool {
    let (cs, os, _) = read_all(p.annotations);
    &&& q.name@ == p.name
    &&& src::opt_string_view(q.comment) == p.doc_comment
    &&& q.type_@ == resolve_type(p.type_)
    &&& constraints_view(q.constraints@) == cs
    &&& exprs_view(q.annotations@) == os
    &&& distinct_names(q.deps@)
    &&& name_set(q.deps@) == property_deps(p)
}

fn copy_name(n: &src::Name) -> (r: src::Name)
    ensures
        r@ == n@,
{
    src::Name { region: n.region, value: n.value.clone() }
}

fn copy_comment(c: &Option<String>) -> (r: Option<String>)
    ensures
        src::opt_string_view(r) == src::opt_string_view(*c),
{
    match c {
        Some(s) => Some(s.clone()),
        None => None,
    }
}

/// The names that `constraints` access, the property `prop_name` left out:
/// a property's own name is no dependency.
pub fn compute_property_dependency(prop_name: &String, constraints: &Vec<Constraint>) -> (r: Vec<
    String,
>)
    ensures
        distinct_names(r@),
        name_set(r@) == accessed_seq(
            constraints_view(constraints@),
            constraints@.len() as int,
        ).remove(prop_name@),
{
    let ghost cv = constraints_view(constraints@);
    let mut deps: Vec<String> = Vec::new();
    let mut i: usize = 0;
    assert(name_set(deps@) =~= accessed_seq(cv, 0));
    while i < constraints.len()
        invariant
            i <= constraints.len(),
            cv == constraints_view(constraints@),
            distinct_names(deps@),
            name_set(deps@) == accessed_seq(cv, i as int),
        decreases constraints.len() - i,
    {
        constraints[i].collect_accessed_deps(&mut deps);
        i += 1;
    }
    let mut r: Vec<String> = Vec::new();
    let mut k: usize = 0;
    while k < deps.len()
        invariant
            k <= deps.len(),
            distinct_names(deps@),
            distinct_names(r@),
            forall|j: int| 0 <= j < r@.len() ==> #[trigger] r@[j]@ != prop_name@,
            name_set(r@) == name_set(deps@.subrange(0, k as int)).remove(prop_name@),
        decreases deps.len() - k,
    {
        let ghost before = r@;
        if deps[k] != *prop_name {
            r.push(deps[k].clone());
            assert(distinct_names(r@)) by {
                assert forall|a: int, b: int| 0 <= a < b < r@.len() implies r@[a]@ != r@[b]@ by {
                    if b == before.len() {
                        assert(before[a] == r@[a]);
                        assert(name_set(before).contains(r@[a]@));
                        assert(name_set(deps@.subrange(0, k as int)).contains(r@[a]@));
                        let j = choose|j: int|
                            0 <= j < k && deps@.subrange(0, k as int)[j]@ == r@[a]@;
                        assert(deps@[j]@ == r@[a]@);
                    }
                }
            }
        }
        k += 1;
        assert(name_set(r@) =~= name_set(deps@.subrange(0, k as int)).remove(prop_name@)) by {
            assert forall|n: Seq<char>| name_set(r@).contains(n) implies name_set(
                deps@.subrange(0, k as int),
            ).remove(prop_name@).contains(n) by {
                let j = choose|j: int| 0 <= j < r@.len() && r@[j]@ == n;
                if j < before.len() {
                    assert(name_set(before).contains(n));
                    let prev = deps@.subrange(0, k - 1);
                    let m = choose|m: int| 0 <= m < prev.len() && prev[m]@ == n;
                    assert(deps@.subrange(0, k as int)[m]@ == n);
                } else {
                    assert(deps@.subrange(0, k as int)[k - 1]@ == n);
                }
            }
            assert forall|n: Seq<char>| name_set(deps@.subrange(0, k as int)).remove(
                prop_name@,
            ).contains(n) implies name_set(r@).contains(n) by {
                let m = choose|m: int| 0 <= m < k && deps@.subrange(0, k as int)[m]@ == n;
                if m < k - 1 {
                    let prev = deps@.subrange(0, k - 1);
                    assert(prev[m]@ == n);
                    assert(name_set(before).contains(n));
                    let j = choose|j: int| 0 <= j < before.len() && before[j]@ == n;
                    assert(r@[j]@ == n);
                } else {
                    assert(r@[before.len() as int]@ == n);
                }
            }
        }
    }
    assert(deps@.subrange(0, deps@.len() as int) =~= deps@);
    r
}

/// Canonicalizes a property; on failure, the errors of its annotations.
pub fn canonicalize_property(property: &src::Property) -> (r: Result<
    can::Property,
    Vec<canonicalize::Annotation>,
>)
    ensures
        match r {
            Ok(q) => read_all(property@.annotations).2.len() == 0 && canonical_property(
                property@,
                q,
            ),
            Err(es) => es@ == read_all(property@.annotations).2 && es@.len() > 0,
        },
{
    let (constraints, annotations, errors) = canonicalize_annotations(&property.annotations);
    if errors.len() > 0 {
        return Err(errors);
    }
    let deps = compute_property_dependency(&property.name.value, &constraints);
    Ok(
        can::Property {
            comment: copy_comment(&property.doc_comment),
            name: copy_name(&property.name),
            type_: parse_type(&property.type_),
            annotations,
            constraints,
            deps,
        },
    )
}

/// Whether `name` is among `deps`.
fn contains_name(deps: &Vec<String>, name: &String) -> (r: bool)
    ensures
        r == name_set(deps@).contains(name@),
{
    let mut i: usize = 0;
    while i < deps.len()
        invariant
            i <= deps.len(),
            forall|k: int| 0 <= k < i ==> deps@[k]@ != name@,
        decreases deps.len() - i,
    {
        if deps[i] == *name {
            assert(deps@[i as int]@ == name@);
            return true;
        }
        i += 1;
    }
    false
}

/// The dependency graph of a record's properties: the properties, by
/// index, whose names each property's constraints access.
pub fn compute_property_dependencies(properties: &Vec<can::Property>) -> (r: Vec<Vec<usize>>)
    ensures
        r@.len() == properties@.len(),
        graph_wf(adj_view(&r)),
        forall|p: int, q: usize|
            0 <= p < properties@.len() && q < properties@.len() ==> (
            #[trigger] r@[p]@.contains(q) <==> name_set(properties@[p].deps@).contains(
                #[trigger] properties@[q as int].name.value@,
            )),
{
    let n = properties.len();
    let mut adj: Vec<Vec<usize>> = Vec::new();
    let mut p: usize = 0;
    while p < n
        invariant
            n == properties.len(),
            p <= n,
            adj@.len() == p,
            forall|x: int, k: int|
                0 <= x < p && 0 <= k < adj@[x]@.len() ==> #[trigger] adj@[x]@[k] < n,
            forall|x: int, q: usize|
                0 <= x < p && q < n ==> (#[trigger] adj@[x]@.contains(q) <==> name_set(
                    properties@[x].deps@,
                ).contains(#[trigger] properties@[q as int].name.value@)),
        decreases n - p,
    {
        let mut row: Vec<usize> = Vec::new();
        let mut q: usize = 0;
        while q < n
            invariant
                n == properties.len(),
                p < n,
                q <= n,
                forall|k: int| 0 <= k < row@.len() ==> #[trigger] row@[k] < q,
                forall|y: usize|
                    y < q ==> (#[trigger] row@.contains(y) <==> name_set(
                        properties@[p as int].deps@,
                    ).contains(properties@[y as int].name.value@)),
            decreases n - q,
        {
            if contains_name(&properties[p].deps, &properties[q].name.value) {
                let ghost before = row@;
                row.push(q);
                assert forall|y: usize| y < q + 1 implies (#[trigger] row@.contains(y)
                    <==> name_set(properties@[p as int].deps@).contains(
                    properties@[y as int].name.value@,
                )) by {
                    if y == q {
                        assert(row@[before.len() as int] == y);
                    } else if row@.contains(y) {
                        let k = choose|k: int| 0 <= k < row@.len() && row@[k] == y;
                        if k < before.len() {
                            assert(before.contains(y));
                        }
                    } else {
                        if before.contains(y) {
                            let k = choose|k: int| 0 <= k < before.len() && before[k] == y;
                            assert(row@[k] == y);
                        }
                    }
                }
            } else {
                assert(!row@.contains(q));
            }
            q += 1;
        }
        adj.push(row);
        p += 1;
    }
    proof {
        assert forall|x: int, k: int|
            0 <= x < adj_view(&adj).len() && 0 <= k < adj_view(&adj)[x].len() implies #[trigger] adj_view(
            &adj,
        )[x][k] < adj_view(&adj).len() by {
            assert(adj@[x]@[k] < n);
        }
    }
    adj
}


/// The errors of the first `n` properties, each tagged with its property.
pub open spec fn property_errors(ps: Seq<src::PropertyView>, n: int) -> Seq<canonicalize::Property>
    decreases n,
{
    if 0 < n <= ps.len() {
        property_errors(ps, n - 1) + read_all(ps[n - 1].annotations).2.map_values(
            |e: canonicalize::Annotation| canonicalize::Property::BadAnnotation(e),
        )
    } else {
        Seq::empty()
    }
}

/// The regions of the properties that the errors of the first `n`
/// properties belong to, one per error.
pub open spec fn property_error_regions(ps: Seq<src::PropertyView>, n: int) -> Seq<Region>
    decreases n,
{
    if 0 < n <= ps.len() {
        property_error_regions(ps, n - 1) + Seq::new(
            read_all(ps[n - 1].annotations).2.len(),
            |i: int| ps[n - 1].name.region,
        )
    } else {
        Seq::empty()
    }
}

/// The errors of a record: its properties' errors in order, then those of
/// its own annotations.
pub open spec fn data_errors(d: src::DataView) -> Seq<canonicalize::Record> {
    let n = d.properties.len() as int;
    Seq::new(
        property_errors(d.properties, n).len(),
        |i: int|
            canonicalize::Record::BadProperty(
                property_error_regions(d.properties, n)[i],
                property_errors(d.properties, n)[i],
            ),
    ) + read_all(d.annotations).2.map_values(
        |e: canonicalize::Annotation| canonicalize::Record::BadAnnotation(e),
    )
}

/// Property `p` of `ps` has a constraint that accesses property `q`.
pub open spec fn depends_on(ps: Seq<src::PropertyView>, p: usize, q: usize) -> bool {
    property_deps(ps[p as int]).contains(ps[q as int].name.value)
}

/// `o` lists the indices of `ps` once each, every property after all the
/// properties it depends on.
pub open spec fn respects_dependencies(ps: Seq<src::PropertyView>, o: Seq<usize>) -> bool {
    &&& o.len() == ps.len()
    &&& forall|a: int| 0 <= a < o.len() ==> #[trigger] o[a] < ps.len()
    &&& forall|a: int, b: int| 0 <= a < b < o.len() ==> o[a] != o[b]
    &&& forall|a: int, b: int|
        0 <= a < o.len() && 0 <= b < o.len() && depends_on(ps, #[trigger] o[a], #[trigger] o[b])
            ==> b < a
}

/// `order` is a validation order of the properties `ps`.
pub open spec fn validation_order(ps: Seq<src::PropertyView>, order: Seq<String>) -> bool {
    exists|o: Seq<usize>|
        respects_dependencies(ps, o) && order.len() == o.len() && forall|a: int|
            0 <= a < o.len() ==> #[trigger] order[a]@ == ps[o[a] as int].name.value
}

/// `o` lists distinct properties of `ps`, each after all the properties
/// it depends on.
pub open spec fn resolves_properties(ps: Seq<src::PropertyView>, o: Seq<usize>) -> bool {
    &&& forall|a: int| 0 <= a < o.len() ==> #[trigger] o[a] < ps.len()
    &&& forall|a: int, b: int| 0 <= a < b < o.len() ==> o[a] != o[b]
    &&& forall|a: int, q: usize|
        0 <= a < o.len() && q < ps.len() && #[trigger] depends_on(ps, o[a], q) ==> exists|b: int|
            0 <= b < a && o[b] == q
}

/// Property `x` can be validated after all it depends on: it lies on no
/// dependency cycle and depends on none that does.
pub open spec fn property_resolvable(ps: Seq<src::PropertyView>, x: usize) -> bool {
    exists|o: Seq<usize>| resolves_properties(ps, o) && o.contains(x)
}

/// `u` is the first property of `ps` that cannot be validated after all
/// it depends on.
pub open spec fn first_unresolvable(ps: Seq<src::PropertyView>, u: usize) -> bool {
    &&& u < ps.len()
    &&& !property_resolvable(ps, u)
    &&& forall|x: usize| x < u ==> property_resolvable(ps, x)
}

proof fn lemma_same_resolution(adj: Seq<Seq<usize>>, ps: Seq<src::PropertyView>)
    requires
        adj.len() == ps.len(),
        graph_wf(adj),
        forall|p: usize, q: usize|
            p < ps.len() && q < ps.len() ==> (#[trigger] adj[p as int].contains(q) <==> depends_on(
                ps,
                p,
                q,
            )),
    ensures
        forall|x: usize| resolvable(adj, x) <==> property_resolvable(ps, x),
{
    reveal(resolvable);
    assert forall|o: Seq<usize>| resolves(adj, o) <==> resolves_properties(ps, o) by {
        if resolves(adj, o) {
            assert forall|a: int, q: usize|
                0 <= a < o.len() && q < ps.len() && #[trigger] depends_on(ps, o[a], q) implies exists|b: int|
                    0 <= b < a && o[b] == q by {
                assert(adj[o[a] as int].contains(q));
                let k = choose|k: int| 0 <= k < adj[o[a] as int].len() && adj[o[a] as int][k] == q;
                assert(placed_before(adj, o, a, k));
            }
        }
        if resolves_properties(ps, o) {
            assert forall|a: int, k: int|
                0 <= a < o.len() && 0 <= k < adj[o[a] as int].len() implies #[trigger] placed_before(
                adj,
                o,
                a,
                k,
            ) by {
                let q = adj[o[a] as int][k];
                assert(adj[o[a] as int].contains(q));
                assert(depends_on(ps, o[a], q));
            }
        }
    }
}

/// `r` is the canonical form of the source record `d`.
pub open spec fn canonical_record(d: src::DataView, r: can::Record) -> bool {
    let (cs, os, _) = read_all(d.annotations);
    &&& r.name@ == d.name
    &&& src::opt_string_view(r.comment) == d.doc_comment
    &&& constraints_view(r.constraints@) == cs
    &&& exprs_view(r.annotations@) == os
    &&& r.properties@.len() == d.properties.len()
    &&& forall|k: int|
        0 <= k < d.properties.len() ==> canonical_property(d.properties[k], #[trigger] r.properties@[k])
    &&& validation_order(d.properties, r.property_validation_order@)
}

proof fn lemma_same_orders(adj: Seq<Seq<usize>>, ps: Seq<src::PropertyView>)
    requires
        adj.len() == ps.len(),
        forall|p: usize, q: usize|
            p < ps.len() && q < ps.len() ==> (#[trigger] adj[p as int].contains(q) <==> depends_on(
                ps,
                p,
                q,
            )),
    ensures
        forall|o: Seq<usize>| valid_order(adj, o) <==> respects_dependencies(ps, o),
{
    assert forall|o: Seq<usize>| valid_order(adj, o) <==> respects_dependencies(ps, o) by {
        if valid_order(adj, o) {
            assert forall|a: int, b: int|
                0 <= a < o.len() && 0 <= b < o.len() && depends_on(ps, #[trigger] o[a], #[trigger] o[b])
                    implies b < a by {
                assert(adj[o[a] as int].contains(o[b]));
            }
        }
        if respects_dependencies(ps, o) {
            assert forall|a: int, b: int|
                0 <= a < o.len() && 0 <= b < o.len() && #[trigger] adj[o[a] as int].contains(
                    #[trigger] o[b],
                ) implies b < a by {
                assert(depends_on(ps, o[a], o[b]));
            }
        }
    }
}

/// Canonicalizes the properties of a record or variant: the canonical
/// properties, or the errors of all that failed.
fn canonicalize_properties(properties: &Vec<src::Property>) -> (r: (
    Vec<can::Property>,
    Vec<canonicalize::Property>,
    Vec<Region>,
))
    ensures
        r.1@ == property_errors(src::properties_view(properties@), properties@.len() as int),
        r.2@ == property_error_regions(
            src::properties_view(properties@),
            properties@.len() as int,
        ),
        r.1@.len() == r.2@.len(),
        r.1@.len() == 0 ==> r.0@.len() == properties@.len() && forall|k: int|
            0 <= k < properties@.len() ==> canonical_property(
                properties@[k]@,
                #[trigger] r.0@[k],
            ),
{
    let ghost ps = src::properties_view(properties@);
    let mut out: Vec<can::Property> = Vec::new();
    let mut errors: Vec<canonicalize::Property> = Vec::new();
    let mut regions: Vec<Region> = Vec::new();
    let mut k: usize = 0;
    while k < properties.len()
        invariant
            k <= properties.len(),
            ps == src::properties_view(properties@),
            errors@ == property_errors(ps, k as int),
            regions@ == property_error_regions(ps, k as int),
            errors@.len() == regions@.len(),
            errors@.len() == 0 ==> out@.len() == k && forall|j: int|
                0 <= j < k ==> canonical_property(properties@[j]@, #[trigger] out@[j]),
        decreases properties.len() - k,
    {
        let ghost eb = errors@;
        let ghost rb = regions@;
        match canonicalize_property(&properties[k]) {
            Ok(q) => {
                out.push(q);
                assert(read_all(ps[k as int].annotations).2 =~= Seq::empty());
                assert(errors@ =~= property_errors(ps, k + 1));
                assert(regions@ =~= property_error_regions(ps, k + 1));
            },
            Err(es) => {
                let ghost ev = es@;
                let mut i: usize = 0;
                while i < es.len()
                    invariant
                        i <= es.len(),
                        k < properties.len(),
                        ev == es@,
                        errors@ == eb + ev.subrange(0, i as int).map_values(
                            |e: canonicalize::Annotation| canonicalize::Property::BadAnnotation(e),
                        ),
                        regions@ == rb + Seq::new(i as nat, |j: int| properties@[k as int].name.region),
                    decreases es.len() - i,
                {
                    errors.push(canonicalize::Property::BadAnnotation(es[i]));
                    regions.push(properties[k].name.region);
                    i += 1;
                    assert(errors@ =~= eb + ev.subrange(0, i as int).map_values(
                        |e: canonicalize::Annotation| canonicalize::Property::BadAnnotation(e),
                    ));
                    assert(regions@ =~= rb + Seq::new(i as nat, |j: int| properties@[k as int].name.region));
                }
                assert(ev.subrange(0, ev.len() as int) =~= ev);
                assert(errors@ =~= property_errors(ps, k + 1));
                assert(regions@ =~= property_error_regions(ps, k + 1));
            },
        }
        k += 1;
    }
    (out, errors, regions)
}

/// Canonicalizes a `data` declaration into a record; on failure, every
/// error of its properties and annotations, or else the dependency cycle.
pub fn canonicalize_data(data: &src::Data) -> (r: Result<can::Record, Vec<canonicalize::Record>>)
    ensures
        match r {
            Ok(rec) => data_errors(data@).len() == 0 && canonical_record(data@, rec),
            Err(es) => if data_errors(data@).len() > 0 {
                es@ == data_errors(data@)
            } else {
                (exists|u: usize|
                    first_unresolvable(data@.properties, u) && es@ == seq![
                        canonicalize::Record::DependencyCycle(data@.properties[u as int].name.region),
                    ]) && !exists|o: Seq<usize>| respects_dependencies(data@.properties, o)
            },
        },
{
    let ghost ps = data@.properties;
    let (properties, prop_errors, regions) = canonicalize_properties(&data.properties);
    let (constraints, annotations, ann_errors) = canonicalize_annotations(&data.annotations);
    let mut errors: Vec<canonicalize::Record> = Vec::new();
    let mut i: usize = 0;
    while i < prop_errors.len()
        invariant
            i <= prop_errors.len(),
            prop_errors@.len() == regions@.len(),
            errors@.len() == i,
            forall|j: int|
                0 <= j < i ==> #[trigger] errors@[j] == canonicalize::Record::BadProperty(
                    regions@[j],
                    prop_errors@[j],
                ),
        decreases prop_errors.len() - i,
    {
        errors.push(canonicalize::Record::BadProperty(regions[i], prop_errors[i]));
        i += 1;
    }
    let ghost first = errors@;
    let mut j: usize = 0;
    while j < ann_errors.len()
        invariant
            j <= ann_errors.len(),
            errors@ == first + ann_errors@.subrange(0, j as int).map_values(
                |e: canonicalize::Annotation| canonicalize::Record::BadAnnotation(e),
            ),
        decreases ann_errors.len() - j,
    {
        errors.push(canonicalize::Record::BadAnnotation(ann_errors[j]));
        j += 1;
        assert(errors@ =~= first + ann_errors@.subrange(0, j as int).map_values(
            |e: canonicalize::Annotation| canonicalize::Record::BadAnnotation(e),
        ));
    }
    proof {
        assert(ann_errors@.subrange(0, ann_errors@.len() as int) =~= ann_errors@);
        assert(errors@ =~= data_errors(data@));
    }
    if errors.len() > 0 {
        return Err(errors);
    }
    proof {
        assert(prop_errors@.len() == 0);
    }
    let adj = compute_property_dependencies(&properties);
    proof {
        assert forall|p: usize, q: usize|
            p < ps.len() && q < ps.len() implies (#[trigger] adj_view(&adj)[p as int].contains(q)
            <==> depends_on(ps, p, q)) by {
            assert(canonical_property(ps[p as int], properties@[p as int]));
            assert(canonical_property(ps[q as int], properties@[q as int]));
            assert(properties@[q as int].name.value@ == ps[q as int].name.value);
        }
        lemma_same_orders(adj_view(&adj), ps);
    }
    match sorted_by_topology(&adj) {
        Err(u) => {
            proof {
                assert forall|o: Seq<usize>| !respects_dependencies(ps, o) by {
                    assert(!valid_order(adj_view(&adj), o));
                }
            }
            proof {
                lemma_same_resolution(adj_view(&adj), ps);
                assert(properties@[u as int].name@ == ps[u as int].name);
            }
            let cycle = canonicalize::Record::DependencyCycle(properties[u].name.region);
            let mut es: Vec<canonicalize::Record> = Vec::new();
            es.push(cycle);
            assert(es@ =~= seq![canonicalize::Record::DependencyCycle(ps[u as int].name.region)]);
            assert(first_unresolvable(ps, u));
            Err(es)
        },
        Ok(o) => {
            let mut order: Vec<String> = Vec::new();
            let mut a: usize = 0;
            while a < o.len()
                invariant
                    a <= o.len(),
                    valid_order(adj_view(&adj), o@),
                    adj_view(&adj).len() == ps.len(),
                    ps == data@.properties,
                    properties@.len() == ps.len(),
                    forall|k: int| 0 <= k < ps.len() ==> canonical_property(ps[k], #[trigger] properties@[k]),
                    order@.len() == a,
                    forall|b: int| 0 <= b < a ==> #[trigger] order@[b]@ == ps[o@[b] as int].name.value,
                decreases o.len() - a,
            {
                let ghost k = o@[a as int] as int;
                assert(canonical_property(ps[k], properties@[k]));
                order.push(properties[o[a]].name.value.clone());
                a += 1;
            }
            let rec = can::Record {
                annotations,
                constraints,
                property_validation_order: order,
                comment: copy_comment(&data.doc_comment),
                name: copy_name(&data.name),
                properties,
            };
            assert(respects_dependencies(ps, o@));
            assert(validation_order(ps, rec.property_validation_order@));
            Ok(rec)
        },
    }
}


/// The errors of a variant: its properties' errors, then its annotations'.
pub open spec fn variant_errors(v: src::VariantView) -> Seq<canonicalize::Variant> {
    let n = v.properties.len() as int;
    Seq::new(
        property_errors(v.properties, n).len(),
        |i: int|
            canonicalize::Variant::BadProperty(
                property_error_regions(v.properties, n)[i],
                property_errors(v.properties, n)[i],
            ),
    ) + read_all(v.annotations).2.map_values(
        |e: canonicalize::Annotation| canonicalize::Variant::BadAnnotation(e),
    )
}

/// `c` is the canonical form of the source variant `v`.
pub open spec fn canonical_variant(v: src::VariantView, c: can::Variant) -> bool {
    let (cs, os, _) = read_all(v.annotations);
    &&& c.name@ == v.name
    &&& src::opt_string_view(c.comment) == v.doc_comment
    &&& constraints_view(c.constraints@) == cs
    &&& exprs_view(c.annotations@) == os
    &&& c.properties@.len() == v.properties.len()
    &&& forall|k: int|
        0 <= k < v.properties.len() ==> canonical_property(v.properties[k], #[trigger] c.properties@[k])
}

/// Canonicalizes an enum variant; on failure, all its errors.
pub fn canonicalize_variant(variant: &src::Variant) -> (r: Result<
    can::Variant,
    Vec<canonicalize::Variant>,
>)
    ensures
        match r {
            Ok(c) => variant_errors(variant@).len() == 0 && canonical_variant(variant@, c),
            Err(es) => es@ == variant_errors(variant@) && es@.len() > 0,
        },
{
    let (properties, prop_errors, regions) = canonicalize_properties(&variant.properties);
    let (constraints, annotations, ann_errors) = canonicalize_annotations(&variant.annotations);
    let mut errors: Vec<canonicalize::Variant> = Vec::new();
    let mut i: usize = 0;
    while i < prop_errors.len()
        invariant
            i <= prop_errors.len(),
            prop_errors@.len() == regions@.len(),
            errors@.len() == i,
            forall|j: int|
                0 <= j < i ==> #[trigger] errors@[j] == canonicalize::Variant::BadProperty(
                    regions@[j],
                    prop_errors@[j],
                ),
        decreases prop_errors.len() - i,
    {
        errors.push(canonicalize::Variant::BadProperty(regions[i], prop_errors[i]));
        i += 1;
    }
    let ghost first = errors@;
    let mut j: usize = 0;
    while j < ann_errors.len()
        invariant
            j <= ann_errors.len(),
            errors@ == first + ann_errors@.subrange(0, j as int).map_values(
                |e: canonicalize::Annotation| canonicalize::Variant::BadAnnotation(e),
            ),
        decreases ann_errors.len() - j,
    {
        errors.push(canonicalize::Variant::BadAnnotation(ann_errors[j]));
        j += 1;
        assert(errors@ =~= first + ann_errors@.subrange(0, j as int).map_values(
            |e: canonicalize::Annotation| canonicalize::Variant::BadAnnotation(e),
        ));
    }
    proof {
        assert(ann_errors@.subrange(0, ann_errors@.len() as int) =~= ann_errors@);
        assert(errors@ =~= variant_errors(variant@));
    }
    if errors.len() > 0 {
        return Err(errors);
    }
    Ok(
        can::Variant {
            annotations,
            constraints,
            comment: copy_comment(&variant.doc_comment),
            name: copy_name(&variant.name),
            properties,
        },
    )
}

/// The errors of the first `n` variants, each tagged with its variant.
pub open spec fn variants_errors(vs: Seq<src::VariantView>, n: int) -> Seq<canonicalize::Enum>
    decreases n,
{
    if 0 < n <= vs.len() {
        variants_errors(vs, n - 1) + variant_errors(vs[n - 1]).map_values(
            |e: canonicalize::Variant| canonicalize::Enum::BadVariant(vs[n - 1].name.region, e),
        )
    } else {
        Seq::empty()
    }
}

/// The errors of an enum: its variants' errors, then its annotations'.
pub open spec fn enum_errors(e: src::EnumView) -> Seq<canonicalize::Enum> {
    variants_errors(e.variants, e.variants.len() as int) + read_all(e.annotations).2.map_values(
        |x: canonicalize::Annotation| canonicalize::Enum::BadAnnotation(x),
    )
}

/// `c` is the canonical form of the source enum `e`.
pub open spec fn canonical_enum(e: src::EnumView, c: can::Enum) -> bool {
    let (cs, os, _) = read_all(e.annotations);
    &&& c.name@ == e.name
    &&& src::opt_string_view(c.comment) == e.doc_comment
    &&& constraints_view(c.constraints@) == cs
    &&& exprs_view(c.annotations@) == os
    &&& c.variants@.len() == e.variants.len()
    &&& forall|k: int|
        0 <= k < e.variants.len() ==> canonical_variant(e.variants[k], #[trigger] c.variants@[k])
}

/// Canonicalizes an enum declaration; on failure, all its errors.
pub fn canonicalize_enum(data: &src::Enum) -> (r: Result<can::Enum, Vec<canonicalize::Enum>>)
    ensures
        match r {
            Ok(c) => enum_errors(data@).len() == 0 && canonical_enum(data@, c),
            Err(es) => es@ == enum_errors(data@) && es@.len() > 0,
        },
{
    let ghost vs = data@.variants;
    let mut errors: Vec<canonicalize::Enum> = Vec::new();
    let mut variants: Vec<can::Variant> = Vec::new();
    let mut k: usize = 0;
    while k < data.variants.len()
        invariant
            k <= data.variants.len(),
            vs == data@.variants,
            errors@ == variants_errors(vs, k as int),
            errors@.len() == 0 ==> variants@.len() == k && forall|j: int|
                0 <= j < k ==> canonical_variant(vs[j], #[trigger] variants@[j]),
        decreases data.variants.len() - k,
    {
        let ghost eb = errors@;
        match canonicalize_variant(&data.variants[k]) {
            Ok(v) => {
                variants.push(v);
                assert(errors@ =~= variants_errors(vs, k + 1));
            },
            Err(es) => {
                let ghost ev = es@;
                let region = data.variants[k].name.region;
                let mut i: usize = 0;
                while i < es.len()
                    invariant
                        i <= es.len(),
                        ev == es@,
                        errors@ == eb + ev.subrange(0, i as int).map_values(
                            |e: canonicalize::Variant| canonicalize::Enum::BadVariant(region, e),
                        ),
                    decreases es.len() - i,
                {
                    errors.push(canonicalize::Enum::BadVariant(region, es[i]));
                    i += 1;
                    assert(errors@ =~= eb + ev.subrange(0, i as int).map_values(
                        |e: canonicalize::Variant| canonicalize::Enum::BadVariant(region, e),
                    ));
                }
                assert(ev.subrange(0, ev.len() as int) =~= ev);
                assert(errors@ =~= variants_errors(vs, k + 1));
            },
        }
        k += 1;
    }
    let (constraints, annotations, ann_errors) = canonicalize_annotations(&data.annotations);
    let ghost first = errors@;
    let mut j: usize = 0;
    while j < ann_errors.len()
        invariant
            j <= ann_errors.len(),
            errors@ == first + ann_errors@.subrange(0, j as int).map_values(
                |e: canonicalize::Annotation| canonicalize::Enum::BadAnnotation(e),
            ),
        decreases ann_errors.len() - j,
    {
        errors.push(canonicalize::Enum::BadAnnotation(ann_errors[j]));
        j += 1;
        assert(errors@ =~= first + ann_errors@.subrange(0, j as int).map_values(
            |e: canonicalize::Annotation| canonicalize::Enum::BadAnnotation(e),
        ));
    }
    proof {
        assert(ann_errors@.subrange(0, ann_errors@.len() as int) =~= ann_errors@);
        assert(errors@ =~= enum_errors(data@));
    }
    if errors.len() > 0 {
        return Err(errors);
    }
    Ok(
        can::Enum {
            annotations,
            constraints,
            comment: copy_comment(&data.doc_comment),
            name: copy_name(&data.name),
            variants,
        },
    )
}


/// The errors of the first `n` parameters, each tagged with its parameter.
pub open spec fn parameters_errors(ps: Seq<src::ParameterView>, n: int) -> Seq<canonicalize::Method>
    decreases n,
{
    if 0 < n <= ps.len() {
        parameters_errors(ps, n - 1) + read_all(ps[n - 1].annotations).2.map_values(
            |e: canonicalize::Annotation|
                canonicalize::Method::BadParameter(
                    ps[n - 1].name.region,
                    canonicalize::Parameter::BadAnnotation(e),
                ),
        )
    } else {
        Seq::empty()
    }
}

/// The errors of a method: its parameters' errors, then its annotations'.
pub open spec fn method_errors(m: src::MethodView) -> Seq<canonicalize::Method> {
    parameters_errors(m.parameters, m.parameters.len() as int) + read_all(
        m.annotations,
    ).2.map_values(|e: canonicalize::Annotation| canonicalize::Method::BadAnnotation(e))
}

/// `q` is the canonical form of the source parameter `p`.
pub open spec fn canonical_parameter(p: src::ParameterView, q: can::Parameter) -> bool {
    let (cs, os, _) = read_all(p.annotations);
    &&& q.name@ == p.name
    &&& q.comment is None
    &&& q.type_@ == resolve_type(p.type_)
    &&& constraints_view(q.constraints@) == cs
    &&& exprs_view(q.annotations@) == os
}

/// `c` is the canonical form of the source method `m`.
pub open spec fn canonical_method(m: src::MethodView, c: can::Method) -> bool {
    &&& c.name@ == m.name
    &&& src::opt_string_view(c.comment) == m.doc_comment
    &&& exprs_view(c.annotations@) == read_all(m.annotations).1
    &&& c.parameters@.len() == m.parameters.len()
    &&& forall|k: int|
        0 <= k < m.parameters.len() ==> canonical_parameter(
            m.parameters[k],
            #[trigger] c.parameters@[k],
        )
    &&& match m.return_type {
        Some(t) => c.return_type matches Some(ct) && ct@ == resolve_type(t),
        None => c.return_type is None,
    }
}

/// Canonicalizes a method; on failure, all its errors.
pub fn canonicalize_method(method: &src::Method) -> (r: Result<can::Method, Vec<canonicalize::Method>>)
    ensures
        match r {
            Ok(c) => method_errors(method@).len() == 0 && canonical_method(method@, c),
            Err(es) => es@ == method_errors(method@) && es@.len() > 0,
        },
{
    let ghost ps = method@.parameters;
    let mut parameters: Vec<can::Parameter> = Vec::new();
    let mut errors: Vec<canonicalize::Method> = Vec::new();
    let mut k: usize = 0;
    while k < method.parameters.len()
        invariant
            k <= method.parameters.len(),
            ps == method@.parameters,
            errors@ == parameters_errors(ps, k as int),
            errors@.len() == 0 ==> parameters@.len() == k && forall|j: int|
                0 <= j < k ==> canonical_parameter(ps[j], #[trigger] parameters@[j]),
        decreases method.parameters.len() - k,
    {
        let parameter = &method.parameters[k];
        let ghost eb = errors@;
        let (constraints, annotations, es) = canonicalize_annotations(&parameter.annotations);
        if es.len() == 0 {
            parameters.push(
                can::Parameter {
                    comment: None,
                    annotations,
                    constraints,
                    name: copy_name(&parameter.name),
                    type_: parse_type(&parameter.type_),
                },
            );
            assert(errors@ =~= parameters_errors(ps, k + 1));
        } else {
            let ghost ev = es@;
            let region = parameter.name.region;
            let mut i: usize = 0;
            while i < es.len()
                invariant
                    i <= es.len(),
                    ev == es@,
                    errors@ == eb + ev.subrange(0, i as int).map_values(
                        |e: canonicalize::Annotation|
                            canonicalize::Method::BadParameter(
                                region,
                                canonicalize::Parameter::BadAnnotation(e),
                            ),
                    ),
                decreases es.len() - i,
            {
                errors.push(
                    canonicalize::Method::BadParameter(
                        region,
                        canonicalize::Parameter::BadAnnotation(es[i]),
                    ),
                );
                i += 1;
                assert(errors@ =~= eb + ev.subrange(0, i as int).map_values(
                    |e: canonicalize::Annotation|
                        canonicalize::Method::BadParameter(
                            region,
                            canonicalize::Parameter::BadAnnotation(e),
                        ),
                ));
            }
            assert(ev.subrange(0, ev.len() as int) =~= ev);
            assert(errors@ =~= parameters_errors(ps, k + 1));
        }
        k += 1;
    }
    let (_, annotations, ann_errors) = canonicalize_annotations(&method.annotations);
    let ghost first = errors@;
    let mut j: usize = 0;
    while j < ann_errors.len()
        invariant
            j <= ann_errors.len(),
            errors@ == first + ann_errors@.subrange(0, j as int).map_values(
                |e: canonicalize::Annotation| canonicalize::Method::BadAnnotation(e),
            ),
        decreases ann_errors.len() - j,
    {
        errors.push(canonicalize::Method::BadAnnotation(ann_errors[j]));
        j += 1;
        assert(errors@ =~= first + ann_errors@.subrange(0, j as int).map_values(
            |e: canonicalize::Annotation| canonicalize::Method::BadAnnotation(e),
        ));
    }
    proof {
        assert(ann_errors@.subrange(0, ann_errors@.len() as int) =~= ann_errors@);
        assert(errors@ =~= method_errors(method@));
    }
    if errors.len() > 0 {
        return Err(errors);
    }
    let return_type = match &method.return_type {
        Some(t) => Some(parse_type(t)),
        None => None,
    };
    Ok(
        can::Method {
            annotations,
            comment: copy_comment(&method.doc_comment),
            name: copy_name(&method.name),
            return_type,
            parameters,
        },
    )
}

/// The errors of the first `n` methods, each tagged with its method.
pub open spec fn methods_errors(ms: Seq<src::MethodView>, n: int) -> Seq<canonicalize::Service>
    decreases n,
{
    if 0 < n <= ms.len() {
        methods_errors(ms, n - 1) + method_errors(ms[n - 1]).map_values(
            |e: canonicalize::Method| canonicalize::Service::BadMethod(ms[n - 1].name.region, e),
        )
    } else {
        Seq::empty()
    }
}

/// The errors of a service: its annotations', its methods', and one more
/// where it carries `check` constraints, which have no meaning on a service.
pub open spec fn service_errors(s: src::ServiceView) -> Seq<canonicalize::Service> {
    let (cs, _, es) = read_all(s.annotations);
    es.map_values(|e: canonicalize::Annotation| canonicalize::Service::BadAnnotation(e))
        + methods_errors(s.methods, s.methods.len() as int) + if cs.len() > 0 {
        seq![
            canonicalize::Service::BadAnnotation(
                canonicalize::Annotation::InvalidAnnotation(s.name.region),
            ),
        ]
    } else {
        Seq::empty()
    }
}

/// `c` is the canonical form of the source service `s`.
pub open spec fn canonical_service(s: src::ServiceView, c: can::Service) -> bool {
    &&& c.name@ == s.name
    &&& src::opt_string_view(c.comment) == s.doc_comment
    &&& exprs_view(c.annotations@) == read_all(s.annotations).1
    &&& c.methods@.len() == s.methods.len()
    &&& forall|k: int|
        0 <= k < s.methods.len() ==> canonical_method(s.methods[k], #[trigger] c.methods@[k])
}

/// Canonicalizes a service declaration; on failure, all its errors.
pub fn canonicalize_service(service: &src::Service) -> (r: Result<
    can::Service,
    Vec<canonicalize::Service>,
>)
    ensures
        match r {
            Ok(c) => service_errors(service@).len() == 0 && canonical_service(service@, c),
            Err(es) => es@ == service_errors(service@) && es@.len() > 0,
        },
{
    let ghost ms = service@.methods;
    let (constraints, annotations, ann_errors) = canonicalize_annotations(&service.annotations);
    let mut errors: Vec<canonicalize::Service> = Vec::new();
    let mut j: usize = 0;
    while j < ann_errors.len()
        invariant
            j <= ann_errors.len(),
            errors@ == ann_errors@.subrange(0, j as int).map_values(
                |e: canonicalize::Annotation| canonicalize::Service::BadAnnotation(e),
            ),
        decreases ann_errors.len() - j,
    {
        errors.push(canonicalize::Service::BadAnnotation(ann_errors[j]));
        j += 1;
        assert(errors@ =~= ann_errors@.subrange(0, j as int).map_values(
            |e: canonicalize::Annotation| canonicalize::Service::BadAnnotation(e),
        ));
    }
    assert(ann_errors@.subrange(0, ann_errors@.len() as int) =~= ann_errors@);
    let ghost first = errors@;
    let mut methods: Vec<can::Method> = Vec::new();
    let mut k: usize = 0;
    assert(first + methods_errors(ms, 0) =~= first);
    while k < service.methods.len()
        invariant
            k <= service.methods.len(),
            ms == service@.methods,
            errors@ == first + methods_errors(ms, k as int),
            methods_errors(ms, k as int).len() == 0 ==> methods@.len() == k && forall|i: int|
                0 <= i < k ==> canonical_method(ms[i], #[trigger] methods@[i]),
        decreases service.methods.len() - k,
    {
        let ghost eb = errors@;
        match canonicalize_method(&service.methods[k]) {
            Ok(m) => {
                methods.push(m);
                assert(methods_errors(ms, k + 1) =~= methods_errors(ms, k as int));
                assert(errors@ =~= first + methods_errors(ms, k + 1));
            },
            Err(es) => {
                let ghost ev = es@;
                let region = service.methods[k].name.region;
                let mut i: usize = 0;
                while i < es.len()
                    invariant
                        i <= es.len(),
                        ev == es@,
                        errors@ == eb + ev.subrange(0, i as int).map_values(
                            |e: canonicalize::Method| canonicalize::Service::BadMethod(region, e),
                        ),
                    decreases es.len() - i,
                {
                    errors.push(canonicalize::Service::BadMethod(region, es[i]));
                    i += 1;
                    assert(errors@ =~= eb + ev.subrange(0, i as int).map_values(
                        |e: canonicalize::Method| canonicalize::Service::BadMethod(region, e),
                    ));
                }
                assert(ev.subrange(0, ev.len() as int) =~= ev);
                assert(errors@ =~= first + methods_errors(ms, k + 1));
            },
        }
        k += 1;
    }
    let ghost second = errors@;
    if constraints.len() > 0 {
        errors.push(
            canonicalize::Service::BadAnnotation(
                canonicalize::Annotation::InvalidAnnotation(service.name.region),
            ),
        );
    }
    proof {
        assert(errors@ =~= service_errors(service@));
    }
    if errors.len() > 0 {
        return Err(errors);
    }
    Ok(
        can::Service {
            annotations,
            name: copy_name(&service.name),
            comment: copy_comment(&service.doc_comment),
            methods,
        },
    )
}


pub open spec fn decl_name(d: src::DeclView) -> src::NameView {
    match d {
        src::DeclView::Data(x) => x.name,
        src::DeclView::Enum(x) => x.name,
        src::DeclView::Service(x) => x.name,
    }
}

/// Declaration `k` reuses the name of an earlier declaration.
pub open spec fn declared_before(ds: Seq<src::DeclView>, k: int) -> bool {
    exists|j: int| 0 <= j < k && decl_name(ds[j]).value == decl_name(ds[k]).value
}

/// The declaration canonicalizes without error.
pub open spec fn decl_ok(d: src::DeclView) -> bool {
    match d {
        src::DeclView::Data(x) => data_errors(x).len() == 0 && exists|o: Seq<usize>|
            respects_dependencies(x.properties, o),
        src::DeclView::Enum(x) => enum_errors(x).len() == 0,
        src::DeclView::Service(x) => service_errors(x).len() == 0,
    }
}

/// The first `n` declarations canonicalize, their names all distinct.
pub open spec fn module_ok(ds: Seq<src::DeclView>, n: int) -> bool {
    forall|k: int| 0 <= k < n ==> !declared_before(ds, k) && decl_ok(#[trigger] ds[k])
}

/// The `data` declarations among the first `n` declarations.
pub open spec fn data_decls(ds: Seq<src::DeclView>, n: int) -> Seq<src::DataView>
    decreases n,
{
    if 0 < n <= ds.len() {
        match ds[n - 1] {
            src::DeclView::Data(x) => data_decls(ds, n - 1).push(x),
            _ => data_decls(ds, n - 1),
        }
    } else {
        Seq::empty()
    }
}

/// The `enum` declarations among the first `n` declarations.
pub open spec fn enum_decls(ds: Seq<src::DeclView>, n: int) -> Seq<src::EnumView>
    decreases n,
{
    if 0 < n <= ds.len() {
        match ds[n - 1] {
            src::DeclView::Enum(x) => enum_decls(ds, n - 1).push(x),
            _ => enum_decls(ds, n - 1),
        }
    } else {
        Seq::empty()
    }
}

/// The `service` declarations among the first `n` declarations.
pub open spec fn service_decls(ds: Seq<src::DeclView>, n: int) -> Seq<src::ServiceView>
    decreases n,
{
    if 0 < n <= ds.len() {
        match ds[n - 1] {
            src::DeclView::Service(x) => service_decls(ds, n - 1).push(x),
            _ => service_decls(ds, n - 1),
        }
    } else {
        Seq::empty()
    }
}

/// `m` holds the canonical forms of the first `n` declarations of `ds`,
/// each kind in source order.
pub open spec fn canonical_module(ds: Seq<src::DeclView>, n: int, m: can::Module) -> bool {
    &&& m.records@.len() == data_decls(ds, n).len()
    &&& forall|k: int|
        0 <= k < m.records@.len() ==> canonical_record(
            data_decls(ds, n)[k],
            #[trigger] m.records@[k],
        )
    &&& m.enums@.len() == enum_decls(ds, n).len()
    &&& forall|k: int|
        0 <= k < m.enums@.len() ==> canonical_enum(enum_decls(ds, n)[k], #[trigger] m.enums@[k])
    &&& m.services@.len() == service_decls(ds, n).len()
    &&& forall|k: int|
        0 <= k < m.services@.len() ==> canonical_service(
            service_decls(ds, n)[k],
            #[trigger] m.services@[k],
        )
}

/// The errors that canonicalizing a record reports: those of its
/// properties and annotations, or else the first property that a
/// dependency cycle keeps from validation.
pub open spec fn record_errors(d: src::DataView) -> Seq<canonicalize::Record> {
    if data_errors(d).len() > 0 {
        data_errors(d)
    } else if exists|u: usize| first_unresolvable(d.properties, u) {
        let u = choose|u: usize| first_unresolvable(d.properties, u);
        seq![canonicalize::Record::DependencyCycle(d.properties[u as int].name.region)]
    } else {
        Seq::empty()
    }
}

/// The errors of declaration `k` of `ds`, tagged with its name.
pub open spec fn decl_errors(ds: Seq<src::DeclView>, k: int) -> Seq<canonicalize::Error> {
    if declared_before(ds, k) {
        seq![canonicalize::Error::DuplicateName(decl_name(ds[k]).region)]
    } else {
        match ds[k] {
            src::DeclView::Data(d) => record_errors(d).map_values(
                |e: canonicalize::Record| canonicalize::Error::BadRecord(d.name.region, e),
            ),
            src::DeclView::Enum(x) => enum_errors(x).map_values(
                |e: canonicalize::Enum| canonicalize::Error::BadEnum(x.name.region, e),
            ),
            src::DeclView::Service(x) => service_errors(x).map_values(
                |e: canonicalize::Service| canonicalize::Error::BadService(x.name.region, e),
            ),
        }
    }
}

/// The errors of the first `n` declarations, in order.
pub open spec fn module_errors(ds: Seq<src::DeclView>, n: int) -> Seq<canonicalize::Error>
    decreases n,
{
    if 0 < n <= ds.len() {
        module_errors(ds, n - 1) + decl_errors(ds, n - 1)
    } else {
        Seq::empty()
    }
}

/// At most one property is the first that cannot be validated.
proof fn lemma_first_unresolvable_unique(ps: Seq<src::PropertyView>, u: usize, v: usize)
    requires
        first_unresolvable(ps, u),
        first_unresolvable(ps, v),
    ensures
        u == v,
{
    if u < v {
        assert(property_resolvable(ps, u));
    } else if v < u {
        assert(property_resolvable(ps, v));
    }
}

/// Where a validation order exists, every property can be validated.
proof fn lemma_ordered_resolvable(ps: Seq<src::PropertyView>, o: Seq<usize>)
    requires
        respects_dependencies(ps, o),
        ps.len() <= usize::MAX,
    ensures
        forall|x: usize| x < ps.len() ==> property_resolvable(ps, x),
{
    lemma_covers(o, ps.len());
    assert forall|a: int, q: usize|
        0 <= a < o.len() && q < ps.len() && #[trigger] depends_on(ps, o[a], q) implies exists|b: int|
            0 <= b < a && o[b] == q by {
        assert(o.contains(q));
        let b = choose|b: int| 0 <= b < o.len() && o[b] == q;
        assert(depends_on(ps, o[a], o[b]));
    }
    assert(resolves_properties(ps, o));
    assert forall|x: usize| x < ps.len() implies property_resolvable(ps, x) by {
        assert(o.contains(x));
    }
}

/// Canonicalizes a source module. Every declaration is processed, and
/// the result is the canonical module only where none failed; otherwise
/// the errors of all that did, with the name of the declaration each
/// belongs to. A declaration whose name an earlier one has is an error.
pub fn canonicalize(module: &src::Module) -> (r: Result<can::Module, Vec<canonicalize::Error>>)
    ensures
        match r {
            Ok(m) => module_ok(module@.declarations, module@.declarations.len() as int)
                && canonical_module(module@.declarations, module@.declarations.len() as int, m),
            Err(es) => !module_ok(module@.declarations, module@.declarations.len() as int)
                && es@ == module_errors(module@.declarations, module@.declarations.len() as int)
                && es@.len() > 0,
        },
{
    let ghost ds = module@.declarations;
    let mut m = can::Module { records: Vec::new(), enums: Vec::new(), services: Vec::new() };
    let mut errors: Vec<canonicalize::Error> = Vec::new();
    let mut seen: Vec<String> = Vec::new();
    let mut k: usize = 0;
    while k < module.declarations.len()
        invariant
            k <= module.declarations.len(),
            ds == module@.declarations,
            seen@.len() == k,
            forall|j: int| 0 <= j < k ==> #[trigger] seen@[j]@ == decl_name(ds[j]).value,
            errors@.len() == 0 <==> module_ok(ds, k as int),
            errors@ == module_errors(ds, k as int),
            errors@.len() == 0 ==> canonical_module(ds, k as int, m),
        decreases module.declarations.len() - k,
    {
        let decl = &module.declarations[k];
        let name = match decl {
            src::Decl::Data(x) => &x.name,
            src::Decl::Enum(x) => &x.name,
            src::Decl::Service(x) => &x.name,
        };
        let ghost before = errors@.len();
        let ghost eb = errors@;
        let ghost m0 = m;
        assert(data_decls(ds, k + 1) == match ds[k as int] {
            src::DeclView::Data(x) => data_decls(ds, k as int).push(x),
            _ => data_decls(ds, k as int),
        });
        assert(enum_decls(ds, k + 1) == match ds[k as int] {
            src::DeclView::Enum(x) => enum_decls(ds, k as int).push(x),
            _ => enum_decls(ds, k as int),
        });
        assert(service_decls(ds, k + 1) == match ds[k as int] {
            src::DeclView::Service(x) => service_decls(ds, k as int).push(x),
            _ => service_decls(ds, k as int),
        });
        if contains_name(&seen, &name.value) {
            proof {
                let j = choose|j: int| 0 <= j < seen@.len() && seen@[j]@ == name.value@;
                assert(declared_before(ds, k as int));
            }
            errors.push(canonicalize::Error::DuplicateName(name.region));
            assert(errors@ =~= module_errors(ds, k + 1));
        } else {
            proof {
                assert forall|j: int| 0 <= j < k implies decl_name(ds[j]).value != decl_name(
                    ds[k as int],
                ).value by {
                    assert(seen@[j]@ == decl_name(ds[j]).value);
                }
                assert(!declared_before(ds, k as int));
            }
            match decl {
                src::Decl::Data(data) => match canonicalize_data(data) {
                    Ok(record) => {
                        proof {
                            let o = choose|o: Seq<usize>|
                                respects_dependencies(data@.properties, o)
                                    && record.property_validation_order@.len() == o.len() && forall|
                                    a: int,
                                | 0 <= a < o.len() ==> #[trigger] record.property_validation_order@[a]@
                                    == data@.properties[o[a] as int].name.value;
                            assert(o.len() <= usize::MAX) by {
                                broadcast use vstd::std_specs::vec::axiom_spec_len;

                                assert(record.property_validation_order.len()
                                    == record.property_validation_order@.len());
                            }
                            lemma_ordered_resolvable(data@.properties, o);
                            assert(record_errors(data@) =~= Seq::empty());
                        }
                        m.records.push(record);
                        assert(errors@ =~= module_errors(ds, k + 1));
                    },
                    Err(es) => {
                        proof {
                            if data_errors(data@).len() == 0 {
                                let u = choose|u: usize|
                                    first_unresolvable(data@.properties, u) && es@ == seq![
                                        canonicalize::Record::DependencyCycle(
                                            data@.properties[u as int].name.region,
                                        ),
                                    ];
                                let v = choose|v: usize| first_unresolvable(data@.properties, v);
                                lemma_first_unresolvable_unique(data@.properties, u, v);
                            }
                            assert(es@ == record_errors(data@));
                        }
                        let region = data.name.region;
                        let ghost ev = es@;
                        let mut i: usize = 0;
                        while i < es.len()
                            invariant
                                i <= es.len(),
                                ev == es@,
                                errors@ == eb + ev.subrange(0, i as int).map_values(
                                    |e: canonicalize::Record| canonicalize::Error::BadRecord(region, e),
                                ),
                            decreases es.len() - i,
                        {
                            errors.push(canonicalize::Error::BadRecord(region, es[i]));
                            i += 1;
                            assert(errors@ =~= eb + ev.subrange(0, i as int).map_values(
                                |e: canonicalize::Record| canonicalize::Error::BadRecord(region, e),
                            ));
                        }
                        assert(ev.subrange(0, ev.len() as int) =~= ev);
                        assert(errors@ =~= module_errors(ds, k + 1));
                    },
                },
                src::Decl::Enum(data) => match canonicalize_enum(data) {
                    Ok(enum_value) => {
                        m.enums.push(enum_value);
                        assert(errors@ =~= module_errors(ds, k + 1));
                    },
                    Err(es) => {
                        let region = data.name.region;
                        let ghost ev = es@;
                        let mut i: usize = 0;
                        while i < es.len()
                            invariant
                                i <= es.len(),
                                ev == es@,
                                errors@ == eb + ev.subrange(0, i as int).map_values(
                                    |e: canonicalize::Enum| canonicalize::Error::BadEnum(region, e),
                                ),
                            decreases es.len() - i,
                        {
                            errors.push(canonicalize::Error::BadEnum(region, es[i]));
                            i += 1;
                            assert(errors@ =~= eb + ev.subrange(0, i as int).map_values(
                                |e: canonicalize::Enum| canonicalize::Error::BadEnum(region, e),
                            ));
                        }
                        assert(ev.subrange(0, ev.len() as int) =~= ev);
                        assert(errors@ =~= module_errors(ds, k + 1));
                    },
                },
                src::Decl::Service(service) => match canonicalize_service(service) {
                    Ok(s) => {
                        m.services.push(s);
                        assert(errors@ =~= module_errors(ds, k + 1));
                    },
                    Err(es) => {
                        let region = service.name.region;
                        let ghost ev = es@;
                        let mut i: usize = 0;
                        while i < es.len()
                            invariant
                                i <= es.len(),
                                ev == es@,
                                errors@ == eb + ev.subrange(0, i as int).map_values(
                                    |e: canonicalize::Service| canonicalize::Error::BadService(region, e),
                                ),
                            decreases es.len() - i,
                        {
                            errors.push(canonicalize::Error::BadService(region, es[i]));
                            i += 1;
                            assert(errors@ =~= eb + ev.subrange(0, i as int).map_values(
                                |e: canonicalize::Service| canonicalize::Error::BadService(region, e),
                            ));
                        }
                        assert(ev.subrange(0, ev.len() as int) =~= ev);
                        assert(errors@ =~= module_errors(ds, k + 1));
                    },
                },
            }
        }
        seen.push(name.value.clone());
        proof {
            assert(module_ok(ds, k + 1) <==> module_ok(ds, k as int) && !declared_before(
                ds,
                k as int,
            ) && decl_ok(ds[k as int]));
        }
        k += 1;
    }
    if errors.len() > 0 {
        Err(errors)
    } else {
        Ok(m)
    }
}

} // verus!
