//! Parameter environments.
//!
//! A [`ParamEnv`] is a dense handle into a hash-consed table of
//! [`ParamEnvData`] records; each record maps a module's parameter
//! declarations, in declaration order, to a bound value: a resolved type
//! node or an evaluated constant. Hash-consing makes structural equality of
//! bindings coincide with handle equality, which gives environments cheap
//! value semantics.

use vstd::prelude::*;

use crate::hir::{HirNode, Name, NamedParam, NodeId, PosParam};
use crate::numeric::Num;

verus! {

/// Handle of an interned parameter environment. Handle `0` is always the
/// empty (default) environment.
pub type ParamEnv = usize;

/// What a parameter is bound to.
#[derive(Debug)]
pub enum ParamBinding {
    /// A type parameter bound to a resolved type node.
    TypeBinding(NodeId),
    /// A value parameter bound to an evaluated constant.
    ValueBinding(Num),
}

/// The canonical record of one environment: each declared parameter id with
/// its binding, in declaration order.
#[derive(Debug)]
pub struct ParamEnvData {
    /// Parameter declaration ids with their bindings.
    pub bindings: Vec<(NodeId, ParamBinding)>,
}

/// Structural equality of bindings: same kind, same node or same sign and
/// limbs.
pub open spec fn binding_eq(a: ParamBinding, b: ParamBinding) -> bool {
    match (a, b) {
        (ParamBinding::TypeBinding(x), ParamBinding::TypeBinding(y)) => x == y,
        (ParamBinding::ValueBinding(m), ParamBinding::ValueBinding(n)) => m.negative == n.negative
            && m.mag@ == n.mag@,
        _ => false,
    }
}

/// Structural equality of environment records.
pub open spec fn env_data_eq(a: ParamEnvData, b: ParamEnvData) -> bool {
    &&& a.bindings@.len() == b.bindings@.len()
    &&& forall|i: int|
        0 <= i < a.bindings@.len() ==> #[trigger] a.bindings@[i].0 == b.bindings@[i].0
            && binding_eq(a.bindings@[i].1, b.bindings@[i].1)
}

/// Structural environment equality is reflexive, symmetric and transitive.
pub proof fn lemma_env_data_eq_equivalence(a: ParamEnvData, b: ParamEnvData, c: ParamEnvData)
    ensures
        env_data_eq(a, a),
        env_data_eq(a, b) == env_data_eq(b, a),
        env_data_eq(a, b) && env_data_eq(b, c) ==> env_data_eq(a, c),
{
}

impl ParamBinding {
    /// A structurally equal copy.
    pub fn duplicate(&self) -> (r: ParamBinding)
        ensures
            binding_eq(r, *self),
    {
        match self {
            ParamBinding::TypeBinding(id) => ParamBinding::TypeBinding(*id),
            ParamBinding::ValueBinding(n) => ParamBinding::ValueBinding(n.duplicate()),
        }
    }
}

/// Structural equality of bindings, executably.
pub fn eq_binding(a: &ParamBinding, b: &ParamBinding) -> (r: bool)
    ensures
        r == binding_eq(*a, *b),
{
    match (a, b) {
        (ParamBinding::TypeBinding(x), ParamBinding::TypeBinding(y)) => *x == *y,
        (ParamBinding::ValueBinding(m), ParamBinding::ValueBinding(n)) => m.eq_num(n),
        _ => false,
    }
}

/// Structural equality of environment records, executably.
pub fn eq_env_data(a: &ParamEnvData, b: &ParamEnvData) -> (r: bool)
    ensures
        r == env_data_eq(*a, *b),
{
    if a.bindings.len() != b.bindings.len() {
        proof {
            assert(a.bindings@.len() != b.bindings@.len());
        }
        return false;
    }
    let mut i: usize = 0;
    while i < a.bindings.len()
        invariant
            i <= a.bindings@.len(),
            a.bindings@.len() == b.bindings@.len(),
            forall|j: int|
                0 <= j < i ==> ((#[trigger] a.bindings@[j]).0 == b.bindings@[j].0 && binding_eq(
                    a.bindings@[j].1,
                    b.bindings@[j].1,
                )),
        decreases a.bindings@.len() - i,
    {
        if a.bindings[i].0 != b.bindings[i].0 {
            return false;
        }
        if !eq_binding(&a.bindings[i].1, &b.bindings[i].1) {
            return false;
        }
        proof {
            assert(a.bindings@[i as int].0 == b.bindings@[i as int].0);
            assert(binding_eq(a.bindings@[i as int].1, b.bindings@[i as int].1));
        }
        i = i + 1;
    }
    true
}

/// The name carried by a parameter declaration node, if `id` names one.
pub open spec fn param_name_of(nodes: Seq<HirNode>, id: NodeId) -> Option<Name> {
    if id < nodes.len() {
        match nodes[id as int] {
            HirNode::TypeParam(p) => Some(p.name.value),
            HirNode::ValueParam(p) => Some(p.name.value),
            _ => None,
        }
    } else {
        None
    }
}

/// The default carried by a parameter declaration node, if any.
pub open spec fn param_default_of(nodes: Seq<HirNode>, id: NodeId) -> Option<NodeId> {
    if id < nodes.len() {
        match nodes[id as int] {
            HirNode::TypeParam(p) => p.default,
            HirNode::ValueParam(p) => p.default,
            _ => None,
        }
    } else {
        None
    }
}

/// The node a named binding list binds under `name`: the first match.
pub open spec fn spec_named_lookup(named: Seq<NamedParam>, name: Name) -> Option<NodeId>
    decreases named.len(),
{
    if named.len() == 0 {
        None
    } else if named[0].1.value == name {
        Some(named[0].2)
    } else {
        spec_named_lookup(named.drop_first(), name)
    }
}

/// The value an environment record binds under a parameter named `name`:
/// the first value binding of a matching declaration.
pub open spec fn spec_lookup_value(
    nodes: Seq<HirNode>,
    bindings: Seq<(NodeId, ParamBinding)>,
    name: Name,
) -> Option<(bool, Seq<u32>)>
    decreases bindings.len(),
{
    if bindings.len() == 0 {
        None
    } else if param_name_of(nodes, bindings[0].0) == Some(name) {
        match bindings[0].1 {
            ParamBinding::ValueBinding(n) => Some((n.negative, n.mag@)),
            ParamBinding::TypeBinding(_) => None,
        }
    } else {
        spec_lookup_value(nodes, bindings.drop_first(), name)
    }
}

/// The constant a parameter-position expression evaluates to under an outer
/// environment: a literal evaluates to itself; an identifier to the value
/// the outer environment binds a parameter of that name to.
pub open spec fn spec_eval_value(
    nodes: Seq<HirNode>,
    outer: Seq<(NodeId, ParamBinding)>,
    expr: NodeId,
) -> Option<(bool, Seq<u32>)> {
    if expr < nodes.len() {
        match nodes[expr as int] {
            HirNode::Expr(e) => match e.kind {
                crate::hir::ExprKind::IntConst(n) => Some((n.negative, n.mag@)),
                crate::hir::ExprKind::Ident(nm) => spec_lookup_value(nodes, outer, nm.value),
            },
            _ => None,
        }
    } else {
        None
    }
}

/// The node bound to the `j`-th declared parameter: the `j`-th positional
/// binding where one exists, else the named binding matching the
/// parameter's name, else the parameter's declared default.
pub open spec fn spec_param_actual(
    nodes: Seq<HirNode>,
    params: Seq<NodeId>,
    pos: Seq<PosParam>,
    named: Seq<NamedParam>,
    j: int,
) -> Option<NodeId> {
    if j < pos.len() {
        Some(pos[j].1)
    } else {
        match param_name_of(nodes, params[j]) {
            Some(nm) => match spec_named_lookup(named, nm) {
                Some(a) => Some(a),
                None => param_default_of(nodes, params[j]),
            },
            None => None,
        }
    }
}

/// A bindable actual for a declared parameter: a type node for a type
/// parameter, an evaluable expression for a value parameter.
pub open spec fn actual_ok(
    nodes: Seq<HirNode>,
    outer: Seq<(NodeId, ParamBinding)>,
    pid: NodeId,
    actual: NodeId,
) -> bool {
    &&& pid < nodes.len()
    &&& actual < nodes.len()
    &&& match nodes[pid as int] {
        HirNode::TypeParam(_) => nodes[actual as int] is Type,
        HirNode::ValueParam(_) => nodes[actual as int] is Expr && spec_eval_value(
            nodes,
            outer,
            actual,
        ) is Some,
        _ => false,
    }
}

/// The binding recorded for a parameter's actual: a type parameter records
/// the type node itself, a value parameter the evaluated constant; the
/// binding kind always agrees with the declaration's kind.
pub open spec fn binding_matches(
    nodes: Seq<HirNode>,
    outer: Seq<(NodeId, ParamBinding)>,
    pid: NodeId,
    actual: NodeId,
    b: ParamBinding,
) -> bool {
    match b {
        ParamBinding::TypeBinding(id) => id == actual && pid < nodes.len() && nodes[pid as int]
            is TypeParam,
        ParamBinding::ValueBinding(n) => pid < nodes.len() && nodes[pid as int] is ValueParam
            && spec_eval_value(nodes, outer, actual) == Some((n.negative, n.mag@)),
    }
}

/// Whether a parameter declaration with the given name stands in
/// `params[j..]`.
pub open spec fn spec_param_search(
    nodes: Seq<HirNode>,
    params: Seq<NodeId>,
    name: Name,
    j: int,
) -> bool
    decreases params.len() - j when 0 <= j <= params.len()
{
    if j >= params.len() {
        false
    } else {
        param_name_of(nodes, params[j]) == Some(name) || spec_param_search(
            nodes,
            params,
            name,
            j + 1,
        )
    }
}

/// When building a parameter environment succeeds: no more positional
/// bindings than declared parameters; every named binding names a declared,
/// not positionally bound, parameter, and no name twice; and every declared
/// parameter ends up with a bindable actual.
pub open spec fn spec_build_ok(
    nodes: Seq<HirNode>,
    outer: Seq<(NodeId, ParamBinding)>,
    params: Seq<NodeId>,
    pos: Seq<PosParam>,
    named: Seq<NamedParam>,
) -> bool {
    &&& pos.len() <= params.len()
    &&& forall|k: int|
        0 <= k < named.len() ==> spec_param_search(
            nodes,
            params,
            (#[trigger] named[k]).1.value,
            pos.len() as int,
        )
    &&& forall|k1: int, k2: int|
        0 <= k1 < k2 < named.len() ==> (#[trigger] named[k1]).1.value != (
        #[trigger] named[k2]).1.value
    &&& forall|j: int|
        0 <= j < params.len() ==> {
            match spec_param_actual(nodes, params, pos, named, j) {
                Some(a) => actual_ok(nodes, outer, #[trigger] params[j], a),
                None => false,
            }
        }
}

} // verus!
