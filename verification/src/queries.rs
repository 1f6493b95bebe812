//! The query context.
//!
//! One value owns the HIR store, the global module table, the interned
//! parameter environments, the diagnostics, and the memoisation caches of
//! the elaboration queries. Every semantic computation runs against it.

use vstd::prelude::*;

use crate::diag::{DiagKind, Diagnostic, Severity};
use crate::hir::{HirNode, Name, NamedParam, NodeId, PosParam};
use crate::numeric::Num;
use crate::param_env::{
    actual_ok, binding_eq, binding_matches, env_data_eq, eq_env_data, param_default_of,
    param_name_of, spec_build_ok, spec_eval_value, spec_lookup_value, spec_named_lookup,
    spec_param_search,
    spec_param_actual, ParamBinding, ParamEnv, ParamEnvData,
};

verus! {

/// The module table binds `name` to the first registered module of that
/// name.
pub open spec fn spec_find_module(modules: Seq<(Name, NodeId)>, name: Name) -> Option<NodeId>
    decreases modules.len(),
{
    if modules.len() == 0 {
        None
    } else if modules[0].0 == name {
        Some(modules[0].1)
    } else {
        spec_find_module(modules.drop_first(), name)
    }
}

/// No two interned environments hold structurally identical bindings.
pub open spec fn envs_unique(envs: Seq<ParamEnvData>) -> bool {
    forall|i: int, j: int| 0 <= i < j < envs.len() ==> !env_data_eq(#[trigger] envs[i], #[trigger] envs[j])
}

/// Two interned environments with structurally identical bindings are the
/// same handle: equality of environments is equality of handles.
pub proof fn lemma_env_canonicalisation(envs: Seq<ParamEnvData>, h1: ParamEnv, h2: ParamEnv)
    requires
        envs_unique(envs),
        h1 < envs.len(),
        h2 < envs.len(),
        env_data_eq(envs[h1 as int], envs[h2 as int]),
    ensures
        h1 == h2,
{
    crate::param_env::lemma_env_data_eq_equivalence(
        envs[h1 as int],
        envs[h2 as int],
        envs[h1 as int],
    );
}

/// Distinct environment handles always hold structurally different
/// bindings: instances elaborated under different handles really were
/// parameterised differently.
pub proof fn lemma_env_isolation(envs: Seq<ParamEnvData>, h1: ParamEnv, h2: ParamEnv)
    requires
        envs_unique(envs),
        h1 < envs.len(),
        h2 < envs.len(),
        h1 != h2,
    ensures
        !env_data_eq(envs[h1 as int], envs[h2 as int]),
{
    crate::param_env::lemma_env_data_eq_equivalence(
        envs[h1 as int],
        envs[h2 as int],
        envs[h1 as int],
    );
}

/// Fully resolved details of an instantiation target: the `name #(params)`
/// clause bound to its module under an interned inner environment.
#[derive(Debug, Clone, Copy, PartialEq, Eq, Structural)]
pub struct InstTargetDetails {
    /// The instantiation target node.
    pub inst_target: NodeId,
    /// The instantiated module node.
    pub module: NodeId,
    /// The parameter environment around the instantiation.
    pub outer_env: ParamEnv,
    /// The environment the instantiation generates; the module's body is
    /// elaborated under it.
    pub inner_env: ParamEnv,
}

/// One resolved port connection: the declared port, the span of the
/// binding where one was written, and the connected node.
pub type PortBinding = (NodeId, Option<crate::source::Span>, NodeId);

/// How one instance's connections bind to its module's declared ports, in
/// declaration order.
#[derive(Debug)]
pub struct PortMapping {
    /// One entry per declared port.
    pub bindings: Vec<PortBinding>,
}

/// Handle of a stored port mapping.
pub type PortMappingId = usize;

/// Fully resolved details of one instantiation: its target's details plus
/// the port mapping.
#[derive(Debug, Clone, Copy, PartialEq, Eq, Structural)]
pub struct InstDetails {
    /// The instantiation node.
    pub inst: NodeId,
    /// The resolved target details.
    pub target: InstTargetDetails,
    /// Handle of the instance's port mapping.
    pub ports: PortMappingId,
}

/// The first cached result under a key.
pub open spec fn cache_find<T>(
    cache: Seq<(NodeId, ParamEnv, Result<T, ()>)>,
    node: NodeId,
    env: ParamEnv,
) -> Option<Result<T, ()>>
    decreases cache.len(),
{
    if cache.len() == 0 {
        None
    } else if cache[0].0 == node && cache[0].1 == env {
        Some(cache[0].2)
    } else {
        cache_find(cache.drop_first(), node, env)
    }
}

/// Every cached success refers only to nodes, environments and port
/// mappings that exist.
pub open spec fn itd_cache_bounds(
    cache: Seq<(NodeId, ParamEnv, Result<InstTargetDetails, ()>)>,
    n_nodes: int,
    n_envs: int,
) -> bool {
    forall|i: int|
        0 <= i < cache.len() ==> (match (#[trigger] cache[i]).2 {
            Ok(d) => d.inst_target == cache[i].0 && d.outer_env == cache[i].1 && d.inst_target
                < n_nodes && d.module < n_nodes && d.outer_env < n_envs && d.inner_env < n_envs,
            Err(_) => true,
        })
}

/// Every cached success refers only to nodes, environments and port
/// mappings that exist.
pub open spec fn id_cache_bounds(
    cache: Seq<(NodeId, ParamEnv, Result<InstDetails, ()>)>,
    n_nodes: int,
    n_envs: int,
    n_mappings: int,
) -> bool {
    forall|i: int|
        0 <= i < cache.len() ==> (match (#[trigger] cache[i]).2 {
            Ok(d) => d.inst == cache[i].0 && d.inst < n_nodes && d.target.inst_target < n_nodes
                && d.target.module < n_nodes && d.target.outer_env < n_envs && d.target.inner_env
                < n_envs && d.ports < n_mappings,
            Err(_) => true,
        })
}

/// One memoised parameter-environment build: the full source as the key
/// and the interned handle, or the recorded failure, as the value.
#[derive(Debug)]
pub struct PeEntry {
    /// The instantiated module node.
    pub module: NodeId,
    /// The instantiation node the parameters stand at.
    pub inst: NodeId,
    /// The environment around the instantiation.
    pub env: ParamEnv,
    /// Positional parameter bindings.
    pub pos: Vec<PosParam>,
    /// Named parameter bindings.
    pub named: Vec<NamedParam>,
    /// The interned environment, or the recorded failure.
    pub result: Result<ParamEnv, ()>,
}

/// The first cached build under a structurally equal source.
pub open spec fn pe_cache_find(
    cache: Seq<PeEntry>,
    module: NodeId,
    inst: NodeId,
    env: ParamEnv,
    pos: Seq<PosParam>,
    named: Seq<NamedParam>,
) -> Option<Result<ParamEnv, ()>>
    decreases cache.len(),
{
    if cache.len() == 0 {
        None
    } else if cache[0].module == module && cache[0].inst == inst && cache[0].env == env
        && cache[0].pos@ == pos && cache[0].named@ == named {
        Some(cache[0].result)
    } else {
        pe_cache_find(cache.drop_first(), module, inst, env, pos, named)
    }
}

/// Every cached build tells the truth of its stored source: a success is
/// an interned environment holding exactly the bindings that source
/// builds, and a failure marks a source whose build cannot succeed. Both
/// stay true as environments are only ever appended.
pub open spec fn pe_cache_sound(
    cache: Seq<PeEntry>,
    nodes: Seq<HirNode>,
    envs: Seq<ParamEnvData>,
) -> bool {
    forall|i: int|
        0 <= i < cache.len() ==> {
            let e = #[trigger] cache[i];
            &&& e.env < envs.len()
            &&& (match e.result {
                Ok(h) => h < envs.len() && (match spec_module_params(nodes, e.module) {
                    Some(mp) => spec_build_ok(
                        nodes,
                        envs[e.env as int].bindings@,
                        mp,
                        e.pos@,
                        e.named@,
                    ) && env_bindings_built(
                        envs[h as int],
                        nodes,
                        envs[e.env as int].bindings@,
                        mp,
                        e.pos@,
                        e.named@,
                    ),
                    None => false,
                }),
                Err(_) => !(match spec_module_params(nodes, e.module) {
                    Some(mp) => spec_build_ok(
                        nodes,
                        envs[e.env as int].bindings@,
                        mp,
                        e.pos@,
                        e.named@,
                    ),
                    None => false,
                }),
            })
        }
}

/// The context all semantic queries run against.
#[derive(Debug)]
pub struct QueryContext {
    /// The HIR nodes.
    pub store: crate::hir::HirStore,
    /// The global module table, filled during lowering.
    pub modules: Vec<(Name, NodeId)>,
    /// The interned parameter environments; handle `0` is the empty one.
    pub envs: Vec<ParamEnvData>,
    /// The stored port mappings.
    pub port_mappings: Vec<PortMapping>,
    /// Memoised instantiation-target details, keyed by node and
    /// environment.
    pub itd_cache: Vec<(NodeId, ParamEnv, Result<InstTargetDetails, ()>)>,
    /// Memoised instantiation details, keyed by node and environment.
    pub id_cache: Vec<(NodeId, ParamEnv, Result<InstDetails, ()>)>,
    /// Memoised parameter-environment builds, keyed by their full source,
    /// failures included.
    pub pe_cache: Vec<PeEntry>,
    /// The diagnostics collected so far, in encounter order.
    pub diags: Vec<Diagnostic>,
}

impl QueryContext {
    /// The empty environment exists at handle `0`, no environment is
    /// interned twice, and the store is sound.
    pub open spec fn wf(&self) -> bool {
        &&& self.store.wf()
        &&& self.envs@.len() >= 1
        &&& self.envs@[0].bindings@.len() == 0
        &&& envs_unique(self.envs@)
        &&& itd_cache_bounds(self.itd_cache@, self.store.nodes@.len() as int, self.envs@.len() as int)
        &&& id_cache_bounds(
            self.id_cache@,
            self.store.nodes@.len() as int,
            self.envs@.len() as int,
            self.port_mappings@.len() as int,
        )
        &&& pe_cache_sound(self.pe_cache@, self.store.nodes@, self.envs@)
    }

    /// A context over a store and module table, with only the default
    /// environment.
    pub fn new(store: crate::hir::HirStore) -> (r: QueryContext)
        requires
            store.wf(),
        ensures
            r.wf(),
            r.store == store,
            r.modules@.len() == 0,
            r.envs@.len() == 1,
            r.itd_cache@.len() == 0,
            r.id_cache@.len() == 0,
            r.diags@.len() == 0,
    {
        let mut envs: Vec<ParamEnvData> = Vec::new();
        envs.push(ParamEnvData { bindings: Vec::new() });
        QueryContext {
            store,
            modules: Vec::new(),
            envs,
            port_mappings: Vec::new(),
            itd_cache: Vec::new(),
            id_cache: Vec::new(),
            pe_cache: Vec::new(),
            diags: Vec::new(),
        }
    }

    /// The always-present empty environment.
    pub fn default_param_env(&self) -> (r: ParamEnv)
        requires
            self.wf(),
        ensures
            r == 0,
            r < self.envs@.len(),
    {
        0
    }

    /// Register a module under its name; earlier registrations win.
    pub fn register_module(&mut self, name: Name, id: NodeId)
        requires
            old(self).wf(),
        ensures
            final(self).wf(),
            final(self).modules@ =~= old(self).modules@.push((name, id)),
            final(self).store == old(self).store,
            final(self).envs == old(self).envs,
            final(self).itd_cache == old(self).itd_cache,
            final(self).id_cache == old(self).id_cache,
            final(self).diags == old(self).diags,
    {
        self.modules.push((name, id));
    }

    /// The module registered under `name`, if any.
    pub fn find_module(&self, name: Name) -> (r: Option<NodeId>)
        ensures
            r == spec_find_module(self.modules@, name),
    {
        proof {
            assert(self.modules@.skip(0) =~= self.modules@);
        }
        let mut i: usize = 0;
        while i < self.modules.len()
            invariant
                i <= self.modules@.len(),
                spec_find_module(self.modules@, name) == spec_find_module(
                    self.modules@.skip(i as int),
                    name,
                ),
            decreases self.modules@.len() - i,
        {
            let (n, id) = self.modules[i];
            proof {
                assert(self.modules@.skip(i as int)[0] == self.modules@[i as int]);
                assert(self.modules@.skip(i as int).drop_first() =~= self.modules@.skip(i + 1));
            }
            if n == name {
                return Some(id);
            }
            i = i + 1;
        }
        None
    }

    /// The record of an interned environment.
    pub fn param_env_data(&self, env: ParamEnv) -> (r: &ParamEnvData)
        requires
            env < self.envs@.len(),
        ensures
            *r == self.envs@[env as int],
    {
        &self.envs[env]
    }

    /// Intern an environment record: the handle of the structurally equal
    /// record that is already present, else a fresh handle.
    ///
    /// Canonicalisation: any record already interned under some handle and
    /// structurally identical to `data` is returned as exactly that handle,
    /// so building the same bindings twice yields the same environment.
    pub fn intern_env(&mut self, data: ParamEnvData) -> (r: ParamEnv)
        requires
            old(self).wf(),
        ensures
            final(self).wf(),
            final(self).store == old(self).store,
            final(self).modules == old(self).modules,
            final(self).port_mappings == old(self).port_mappings,
            final(self).itd_cache == old(self).itd_cache,
            final(self).id_cache == old(self).id_cache,
            final(self).pe_cache == old(self).pe_cache,
            final(self).diags == old(self).diags,
            old(self).envs@.len() <= final(self).envs@.len(),
            final(self).envs@.subrange(0, old(self).envs@.len() as int) =~= old(self).envs@,
            r < final(self).envs@.len(),
            env_data_eq(final(self).envs@[r as int], data),
            forall|h: int|
                0 <= h < old(self).envs@.len() && env_data_eq(#[trigger] old(self).envs@[h], data)
                    ==> r == h,
    {
        let mut i: usize = 0;
        while i < self.envs.len()
            invariant
                *self == *old(self),
                self.wf(),
                i <= self.envs@.len(),
                forall|h: int| 0 <= h < i ==> !env_data_eq(#[trigger] self.envs@[h], data),
            decreases self.envs@.len() - i,
        {
            if eq_env_data(&self.envs[i], &data) {
                proof {
                    assert forall|h: int|
                        0 <= h < self.envs@.len() && env_data_eq(
                            #[trigger] self.envs@[h],
                            data,
                        ) implies i as int == h by {
                        crate::param_env::lemma_env_data_eq_equivalence(
                            self.envs@[i as int],
                            data,
                            self.envs@[h],
                        );
                        crate::param_env::lemma_env_data_eq_equivalence(
                            data,
                            self.envs@[h],
                            self.envs@[i as int],
                        );
                        crate::param_env::lemma_env_data_eq_equivalence(
                            self.envs@[i as int],
                            self.envs@[h],
                            data,
                        );
                        if (i as int) < h {
                            assert(!env_data_eq(self.envs@[i as int], self.envs@[h]));
                        } else if h < (i as int) {
                            assert(!env_data_eq(self.envs@[h], self.envs@[i as int]));
                        }
                    }
                    assert(self.envs@.subrange(0, self.envs@.len() as int) =~= self.envs@);
                }
                return i;
            }
            i = i + 1;
        }
        let r = self.envs.len();
        let ghost pre = self.envs@;
        self.envs.push(data);
        proof {
            assert(self.envs@.subrange(0, pre.len() as int) =~= pre);
            crate::param_env::lemma_env_data_eq_equivalence(data, data, data);
            assert forall|a: int, b: int|
                0 <= a < b < self.envs@.len() implies !env_data_eq(
                #[trigger] self.envs@[a],
                #[trigger] self.envs@[b],
            ) by {
                if b < pre.len() {
                    assert(self.envs@[a] == pre[a] && self.envs@[b] == pre[b]);
                } else {
                    assert(self.envs@[b] == data);
                    assert(self.envs@[a] == pre[a]);
                    crate::param_env::lemma_env_data_eq_equivalence(
                        pre[a],
                        data,
                        data,
                    );
                }
            }
        }
        r
    }
}

/// Where a parameter environment comes from.
#[derive(Debug)]
pub enum ParamEnvSource {
    /// The empty environment every compilation starts from.
    DefaultEnv,
    /// The environment a module instantiation generates.
    ModuleInst {
        /// The instantiated module node.
        module: NodeId,
        /// The instantiation node the parameters stand at.
        inst: NodeId,
        /// The environment around the instantiation.
        env: ParamEnv,
        /// Positional parameter bindings.
        pos: Vec<PosParam>,
        /// Named parameter bindings.
        named: Vec<NamedParam>,
    },
}

/// The parameter list of a module node, if `id` names one.
pub open spec fn spec_module_params(nodes: Seq<HirNode>, id: NodeId) -> Option<Seq<NodeId>> {
    if id < nodes.len() {
        match nodes[id as int] {
            HirNode::Module(m) => Some(m.params@),
            _ => None,
        }
    } else {
        None
    }
}

/// The port list of a module node, if `id` names one.
pub open spec fn spec_module_ports(nodes: Seq<HirNode>, id: NodeId) -> Option<Seq<NodeId>> {
    if id < nodes.len() {
        match nodes[id as int] {
            HirNode::Module(m) => Some(m.ports@),
            _ => None,
        }
    } else {
        None
    }
}

/// An environment record binds each declared parameter, in declaration
/// order, to the value its chosen actual denotes.
pub open spec fn env_bindings_built(
    data: ParamEnvData,
    nodes: Seq<HirNode>,
    outerb: Seq<(NodeId, ParamBinding)>,
    params: Seq<NodeId>,
    pos: Seq<PosParam>,
    named: Seq<NamedParam>,
) -> bool {
    &&& data.bindings@.len() == params.len()
    &&& forall|j: int|
        0 <= j < params.len() ==> ((#[trigger] data.bindings@[j]).0 == params[j] && match
            spec_param_actual(nodes, params, pos, named, j) {
            Some(a) => binding_matches(nodes, outerb, params[j], a, data.bindings@[j].1)
                && actual_ok(nodes, outerb, params[j], a),
            None => false,
        })
}

/// A binding that records an actual still records it after being replaced
/// by a structurally equal one.
pub proof fn lemma_binding_matches_eq(
    nodes: Seq<HirNode>,
    outerb: Seq<(NodeId, ParamBinding)>,
    pid: NodeId,
    actual: NodeId,
    b1: ParamBinding,
    b2: ParamBinding,
)
    requires
        binding_matches(nodes, outerb, pid, actual, b1),
        binding_eq(b1, b2),
    ensures
        binding_matches(nodes, outerb, pid, actual, b2),
{
}

/// [`env_bindings_built`] carries over to a structurally equal record.
pub proof fn lemma_bindings_built_eq(
    a: ParamEnvData,
    b: ParamEnvData,
    nodes: Seq<HirNode>,
    outerb: Seq<(NodeId, ParamBinding)>,
    params: Seq<NodeId>,
    pos: Seq<PosParam>,
    named: Seq<NamedParam>,
)
    requires
        env_bindings_built(a, nodes, outerb, params, pos, named),
        env_data_eq(b, a),
    ensures
        env_bindings_built(b, nodes, outerb, params, pos, named),
{
    assert forall|j: int|
        0 <= j < params.len() implies ((#[trigger] b.bindings@[j]).0 == params[j] && match
        spec_param_actual(nodes, params, pos, named, j) {
        Some(a2) => binding_matches(nodes, outerb, params[j], a2, b.bindings@[j].1) && actual_ok(
            nodes,
            outerb,
            params[j],
            a2,
        ),
        None => false,
    }) by {
        assert(b.bindings@[j].0 == a.bindings@[j].0);
        assert(binding_eq(b.bindings@[j].1, a.bindings@[j].1));
        match spec_param_actual(nodes, params, pos, named, j) {
            Some(a2) => {
                lemma_binding_matches_eq(
                    nodes,
                    outerb,
                    params[j],
                    a2,
                    a.bindings@[j].1,
                    b.bindings@[j].1,
                );
            },
            None => {},
        }
    }
}

/// The built bindings are a function of the store, the outer bindings and
/// the binding lists: two records built for the same inputs are
/// structurally identical. With [`envs_unique`], interning them yields one
/// handle.
pub proof fn lemma_bindings_determined(
    a: ParamEnvData,
    b: ParamEnvData,
    nodes: Seq<HirNode>,
    outerb: Seq<(NodeId, ParamBinding)>,
    params: Seq<NodeId>,
    pos: Seq<PosParam>,
    named: Seq<NamedParam>,
)
    requires
        env_bindings_built(a, nodes, outerb, params, pos, named),
        env_bindings_built(b, nodes, outerb, params, pos, named),
    ensures
        env_data_eq(a, b),
{
    assert forall|j: int|
        0 <= j < a.bindings@.len() implies ((#[trigger] a.bindings@[j]).0 == b.bindings@[j].0
        && binding_eq(a.bindings@[j].1, b.bindings@[j].1)) by {
        assert(a.bindings@[j].0 == params[j]);
        assert(b.bindings@[j].0 == params[j]);
        match spec_param_actual(nodes, params, pos, named, j) {
            Some(act) => {
                assert(binding_matches(nodes, outerb, params[j], act, a.bindings@[j].1));
                assert(binding_matches(nodes, outerb, params[j], act, b.bindings@[j].1));
            },
            None => {
                assert(false);
            },
        }
    }
}

/// Positional-binding lists are equal exactly when their elements are.
fn eq_pos_list(a: &Vec<PosParam>, b: &Vec<PosParam>) -> (r: bool)
    ensures
        r == (a@ == b@),
{
    if a.len() != b.len() {
        proof {
            assert(a@.len() != b@.len());
        }
        return false;
    }
    let mut i: usize = 0;
    while i < a.len()
        invariant
            i <= a@.len(),
            a@.len() == b@.len(),
            forall|j: int| 0 <= j < i ==> a@[j] == b@[j],
        decreases a@.len() - i,
    {
        if !(a[i].0 == b[i].0 && a[i].1 == b[i].1) {
            return false;
        }
        proof {
            assert(a@[i as int] == b@[i as int]);
        }
        i = i + 1;
    }
    proof {
        assert(a@ =~= b@);
    }
    true
}

/// Named-binding lists are equal exactly when their elements are.
fn eq_named_list(a: &Vec<NamedParam>, b: &Vec<NamedParam>) -> (r: bool)
    ensures
        r == (a@ == b@),
{
    if a.len() != b.len() {
        proof {
            assert(a@.len() != b@.len());
        }
        return false;
    }
    let mut i: usize = 0;
    while i < a.len()
        invariant
            i <= a@.len(),
            a@.len() == b@.len(),
            forall|j: int| 0 <= j < i ==> a@[j] == b@[j],
        decreases a@.len() - i,
    {
        if !(a[i].0 == b[i].0 && a[i].1.value == b[i].1.value && a[i].1.span == b[i].1.span
            && a[i].2 == b[i].2) {
            return false;
        }
        proof {
            assert(a@[i as int] == b@[i as int]);
        }
        i = i + 1;
    }
    proof {
        assert(a@ =~= b@);
    }
    true
}

/// Appending a build under a source not yet cached makes lookups of that
/// source find it.
pub proof fn lemma_pe_cache_find_push(
    cache: Seq<PeEntry>,
    e: PeEntry,
)
    requires
        pe_cache_find(cache, e.module, e.inst, e.env, e.pos@, e.named@) is None,
    ensures
        pe_cache_find(cache.push(e), e.module, e.inst, e.env, e.pos@, e.named@) == Some(e.result),
    decreases cache.len(),
{
    if cache.len() == 0 {
        assert(cache.push(e).drop_first() =~= Seq::empty());
    } else {
        assert(cache.push(e).drop_first() =~= cache.drop_first().push(e));
        lemma_pe_cache_find_push(cache.drop_first(), e);
    }
}

/// The node a named binding list binds under `name`, executably.
fn named_search(named: &Vec<NamedParam>, name: Name) -> (r: Option<NodeId>)
    ensures
        r == spec_named_lookup(named@, name),
{
    proof {
        assert(named@.skip(0) =~= named@);
    }
    let mut i: usize = 0;
    while i < named.len()
        invariant
            i <= named@.len(),
            spec_named_lookup(named@, name) == spec_named_lookup(named@.skip(i as int), name),
        decreases named@.len() - i,
    {
        proof {
            assert(named@.skip(i as int)[0] == named@[i as int]);
            assert(named@.skip(i as int).drop_first() =~= named@.skip(i + 1));
        }
        if named[i].1.value == name {
            return Some(named[i].2);
        }
        i = i + 1;
    }
    None
}

impl QueryContext {
    /// The name of a parameter declaration node, executably.
    fn param_name(&self, id: NodeId) -> (r: Option<Name>)
        ensures
            r == param_name_of(self.store.nodes@, id),
    {
        match self.store.get(id) {
            Some(n) => match n {
                HirNode::TypeParam(p) => Some(p.name.value),
                HirNode::ValueParam(p) => Some(p.name.value),
                _ => None,
            },
            None => None,
        }
    }

    /// The default of a parameter declaration node, executably.
    fn param_default(&self, id: NodeId) -> (r: Option<NodeId>)
        ensures
            r == param_default_of(self.store.nodes@, id),
    {
        match self.store.get(id) {
            Some(n) => match n {
                HirNode::TypeParam(p) => p.default,
                HirNode::ValueParam(p) => p.default,
                _ => None,
            },
            None => None,
        }
    }

    /// Evaluate a constant parameter expression under an outer environment:
    /// a literal is itself; an identifier is the value the outer
    /// environment binds a parameter of that name to.
    fn eval_value(&self, outer: ParamEnv, expr: NodeId) -> (r: Option<Num>)
        requires
            outer < self.envs@.len(),
        ensures
            match r {
                Some(n) => spec_eval_value(
                    self.store.nodes@,
                    self.envs@[outer as int].bindings@,
                    expr,
                ) == Some((n.negative, n.mag@)),
                None => spec_eval_value(
                    self.store.nodes@,
                    self.envs@[outer as int].bindings@,
                    expr,
                ) is None,
            },
    {
        match self.store.expr(expr) {
            Some(e) => match &e.kind {
                crate::hir::ExprKind::IntConst(n) => Some(n.duplicate()),
                crate::hir::ExprKind::Ident(nm) => {
                    let name = nm.value;
                    let b = &self.envs[outer].bindings;
                    proof {
                        assert(b@.skip(0) =~= b@);
                    }
                    let mut i: usize = 0;
                    while i < b.len()
                        invariant
                            i <= b@.len(),
                            outer < self.envs@.len(),
                            b == &self.envs@[outer as int].bindings,
                            spec_eval_value(
                                self.store.nodes@,
                                self.envs@[outer as int].bindings@,
                                expr,
                            ) == spec_lookup_value(self.store.nodes@, b@, name),
                            spec_lookup_value(self.store.nodes@, b@, name) == spec_lookup_value(
                                self.store.nodes@,
                                b@.skip(i as int),
                                name,
                            ),
                        decreases b@.len() - i,
                    {
                        proof {
                            assert(b@.skip(i as int)[0] == b@[i as int]);
                            assert(b@.skip(i as int).drop_first() =~= b@.skip(i + 1));
                        }
                        let pid = b[i].0;
                        let is_match = match self.param_name(pid) {
                            Some(pn) => pn == name,
                            None => false,
                        };
                        if is_match {
                            match &b[i].1 {
                                ParamBinding::ValueBinding(n) => {
                                    return Some(n.duplicate());
                                },
                                ParamBinding::TypeBinding(_) => {
                                    return None;
                                },
                            }
                        }
                        i = i + 1;
                    }
                    None
                },
            },
            None => None,
        }
    }

    /// Build the environment record a module instantiation generates:
    /// positional bindings cover the leading declared parameters, named
    /// bindings their matching declarations, and the rest fall back to
    /// their declared defaults. Fails, with the diagnostic to report, on a
    /// superfluous positional binding, an unknown or duplicated name, an
    /// unbound parameter without default, a kind mismatch, or an
    /// unevaluable value.
    fn build_env_data(
        &self,
        params: &Vec<NodeId>,
        outer: ParamEnv,
        pos: &Vec<PosParam>,
        named: &Vec<NamedParam>,
    ) -> (r: Result<ParamEnvData, Diagnostic>)
        requires
            self.wf(),
            outer < self.envs@.len(),
        ensures
            ({
                let nodes = self.store.nodes@;
                let outerb = self.envs@[outer as int].bindings@;
                match r {
                    Ok(data) => spec_build_ok(nodes, outerb, params@, pos@, named@)
                        && env_bindings_built(data, nodes, outerb, params@, pos@, named@),
                    Err(_) => !spec_build_ok(nodes, outerb, params@, pos@, named@),
                }
            }),
    {
        let ghost nodes = self.store.nodes@;
        let ghost outerb = self.envs@[outer as int].bindings@;
        if pos.len() > params.len() {
            return Err(Diagnostic::error(DiagKind::SuperfluousParam, pos[params.len()].0));
        }
        let mut k1: usize = 0;
        while k1 < named.len()
            invariant
                k1 <= named@.len(),
                forall|a: int, b: int|
                    0 <= a < b < named@.len() && a < k1 ==> (#[trigger] named@[a]).1.value != (
                    #[trigger] named@[b]).1.value,
            decreases named@.len() - k1,
        {
            let mut k2: usize = k1 + 1;
            while k2 < named.len()
                invariant
                    k1 < k2 <= named@.len() || (k1 + 1 == k2 && k2 > named@.len()),
                    k1 < named@.len(),
                    forall|a: int, b: int|
                        0 <= a < b < named@.len() && a < k1 ==> (#[trigger] named@[a]).1.value != (
                        #[trigger] named@[b]).1.value,
                    forall|b: int|
                        k1 < b < k2 ==> (#[trigger] named@[b]).1.value != named@[k1 as int].1.value,
                decreases named@.len() - k2,
            {
                if named[k1].1.value == named[k2].1.value {
                    return Err(
                        Diagnostic::error(
                            DiagKind::DuplicateParamBinding(named[k2].1.value),
                            named[k2].0,
                        ),
                    );
                }
                k2 = k2 + 1;
            }
            k1 = k1 + 1;
        }
        let mut k: usize = 0;
        while k < named.len()
            invariant
                self.wf(),
                outer < self.envs@.len(),
                nodes == self.store.nodes@,
                pos@.len() <= params@.len(),
                forall|a: int, b: int|
                    0 <= a < b < named@.len() ==> (#[trigger] named@[a]).1.value != (
                    #[trigger] named@[b]).1.value,
                k <= named@.len(),
                forall|kk: int|
                    0 <= kk < k ==> spec_param_search(
                        nodes,
                        params@,
                        (#[trigger] named@[kk]).1.value,
                        pos@.len() as int,
                    ),
            decreases named@.len() - k,
        {
            let name = named[k].1.value;
            let mut j: usize = pos.len();
            let mut found = false;
            while j < params.len() && !found
                invariant
                    self.wf(),
                    nodes == self.store.nodes@,
                    k < named@.len(),
                    name == named@[k as int].1.value,
                    forall|a: int, b: int|
                        0 <= a < b < named@.len() ==> (#[trigger] named@[a]).1.value != (
                        #[trigger] named@[b]).1.value,
                    forall|kk: int|
                        0 <= kk < k ==> spec_param_search(
                            nodes,
                            params@,
                            (#[trigger] named@[kk]).1.value,
                            pos@.len() as int,
                        ),
                    pos@.len() <= j <= params@.len(),
                    !found ==> spec_param_search(nodes, params@, name, pos@.len() as int)
                        == spec_param_search(nodes, params@, name, j as int),
                    found ==> spec_param_search(nodes, params@, name, pos@.len() as int),
                decreases params@.len() - j + (if found {
                    0int
                } else {
                    1int
                }),
            {
                let is_match = match self.param_name(params[j]) {
                    Some(pn) => pn == name,
                    None => false,
                };
                if is_match {
                    found = true;
                } else {
                    j = j + 1;
                }
            }
            if !found {
                proof {
                    assert(!spec_param_search(nodes, params@, name, params@.len() as int));
                }
                return Err(Diagnostic::error(DiagKind::UnknownParamName(name), named[k].0));
            }
            k = k + 1;
        }
        let mut bindings: Vec<(NodeId, ParamBinding)> = Vec::new();
        let mut j: usize = 0;
        while j < params.len()
            invariant
                self.wf(),
                outer < self.envs@.len(),
                nodes == self.store.nodes@,
                outerb == self.envs@[outer as int].bindings@,
                pos@.len() <= params@.len(),
                forall|a: int, b: int|
                    0 <= a < b < named@.len() ==> (#[trigger] named@[a]).1.value != (
                    #[trigger] named@[b]).1.value,
                forall|kk: int|
                    0 <= kk < named@.len() ==> spec_param_search(
                        nodes,
                        params@,
                        (#[trigger] named@[kk]).1.value,
                        pos@.len() as int,
                    ),
                j <= params@.len(),
                bindings@.len() == j,
                forall|jj: int|
                    0 <= jj < j ==> ((#[trigger] bindings@[jj]).0 == params@[jj] && match
                        spec_param_actual(nodes, params@, pos@, named@, jj) {
                        Some(a) => binding_matches(nodes, outerb, params@[jj], a, bindings@[jj].1)
                            && actual_ok(nodes, outerb, params@[jj], a),
                        None => false,
                    }),
            decreases params@.len() - j,
        {
            let pid = params[j];
            let actual: NodeId;
            if j < pos.len() {
                actual = pos[j].1;
            } else {
                match self.param_name(pid) {
                    None => {
                        return Err(
                            Diagnostic {
                                severity: Severity::Error,
                                kind: DiagKind::InternalBug,
                                span: None,
                            },
                        );
                    },
                    Some(pname) => {
                        match named_search(named, pname) {
                            Some(a) => {
                                actual = a;
                            },
                            None => {
                                match self.param_default(pid) {
                                    Some(d) => {
                                        actual = d;
                                    },
                                    None => {
                                        return Err(
                                            Diagnostic {
                                                severity: Severity::Error,
                                                kind: DiagKind::UnboundParam(pname),
                                                span: None,
                                            },
                                        );
                                    },
                                }
                            },
                        }
                    },
                }
            }
            proof {
                assert(spec_param_actual(nodes, params@, pos@, named@, j as int) == Some(actual));
            }
            let is_type_param = match self.store.get(pid) {
                Some(n) => matches!(n, HirNode::TypeParam(_)),
                None => false,
            };
            let is_value_param = match self.store.get(pid) {
                Some(n) => matches!(n, HirNode::ValueParam(_)),
                None => false,
            };
            if is_type_param {
                match self.store.type_node(actual) {
                    Some(_) => {
                        bindings.push((pid, ParamBinding::TypeBinding(actual)));
                    },
                    None => {
                        return Err(
                            Diagnostic {
                                severity: Severity::Error,
                                kind: DiagKind::ParamKindMismatch,
                                span: None,
                            },
                        );
                    },
                }
            } else if is_value_param {
                match self.store.expr(actual) {
                    Some(_) => {
                        match self.eval_value(outer, actual) {
                            Some(n) => {
                                bindings.push((pid, ParamBinding::ValueBinding(n)));
                            },
                            None => {
                                let kind = match self.store.expr(actual) {
                                    Some(e) => match &e.kind {
                                        crate::hir::ExprKind::Ident(nm) => DiagKind::UnresolvedIdent(
                                            nm.value,
                                        ),
                                        _ => DiagKind::InternalBug,
                                    },
                                    None => DiagKind::InternalBug,
                                };
                                return Err(
                                    Diagnostic { severity: Severity::Error, kind, span: None },
                                );
                            },
                        }
                    },
                    None => {
                        return Err(
                            Diagnostic {
                                severity: Severity::Error,
                                kind: DiagKind::ParamKindMismatch,
                                span: None,
                            },
                        );
                    },
                }
            } else {
                return Err(
                    Diagnostic {
                        severity: Severity::Error,
                        kind: DiagKind::InternalBug,
                        span: None,
                    },
                );
            }
            j = j + 1;
        }
        let data = ParamEnvData { bindings };
        proof {
            assert forall|j2: int| 0 <= j2 < params@.len() implies (match spec_param_actual(
                nodes,
                params@,
                pos@,
                named@,
                j2,
            ) {
                Some(a) => actual_ok(nodes, outerb, #[trigger] params@[j2], a),
                None => false,
            }) by {
                assert((data.bindings@[j2]).0 == params@[j2]);
            }
        }
        Ok(data)
    }

    /// Intern the parameter environment a source describes.
    ///
    /// The default source yields handle `0`. A module-instantiation source
    /// builds the record of bindings and interns it; two sources building
    /// structurally identical bindings yield the same handle. On failure a
    /// diagnostic is recorded and the query fails.
    pub fn param_env(&mut self, src: ParamEnvSource) -> (r: Result<ParamEnv, ()>)
        requires
            old(self).wf(),
            match src {
                ParamEnvSource::ModuleInst { env, .. } => env < old(self).envs@.len(),
                _ => true,
            },
        ensures
            final(self).wf(),
            final(self).store == old(self).store,
            final(self).modules == old(self).modules,
            final(self).port_mappings == old(self).port_mappings,
            final(self).itd_cache == old(self).itd_cache,
            final(self).id_cache == old(self).id_cache,
            old(self).envs@.len() <= final(self).envs@.len(),
            final(self).envs@.subrange(0, old(self).envs@.len() as int) =~= old(self).envs@,
            old(self).diags@.len() <= final(self).diags@.len(),
            final(self).diags@.subrange(0, old(self).diags@.len() as int) =~= old(self).diags@,
            r is Err ==> final(self).envs@ == old(self).envs@,
            match src {
                ParamEnvSource::DefaultEnv => r == Ok::<ParamEnv, ()>(0) && *final(self) == *old(
                    self,
                ),
                ParamEnvSource::ModuleInst { module, inst, env, pos, named } => ({
                    let nodes = old(self).store.nodes@;
                    let outerb = old(self).envs@[env as int].bindings@;
                    let cached = pe_cache_find(
                        old(self).pe_cache@,
                        module,
                        inst,
                        env,
                        pos@,
                        named@,
                    );
                    &&& (match cached {
                        Some(c) => r == c && *final(self) == *old(self),
                        None => final(self).pe_cache@.len() == old(self).pe_cache@.len() + 1,
                    })
                    &&& pe_cache_find(final(self).pe_cache@, module, inst, env, pos@, named@)
                        == Some(r)
                    &&& (match spec_module_params(nodes, module) {
                        Some(mparams) => {
                            if spec_build_ok(nodes, outerb, mparams, pos@, named@) {
                                match r {
                                    Ok(h) => h < final(self).envs@.len() && env_bindings_built(
                                        final(self).envs@[h as int],
                                        nodes,
                                        outerb,
                                        mparams,
                                        pos@,
                                        named@,
                                    ) && final(self).diags == old(self).diags,
                                    Err(_) => false,
                                }
                            } else {
                                r is Err && (cached is None ==> final(self).diags@.len() == old(
                                    self,
                                ).diags@.len() + 1)
                            }
                        },
                        None => r is Err && (cached is None ==> final(self).diags@.len() == old(
                            self,
                        ).diags@.len() + 1),
                    })
                }),
            },
    {
        match src {
            ParamEnvSource::DefaultEnv => Ok(0),
            ParamEnvSource::ModuleInst { module, inst, env, pos, named } => {
                proof {
                    assert(self.pe_cache@.skip(0) =~= self.pe_cache@);
                }
                let mut ci: usize = 0;
                while ci < self.pe_cache.len()
                    invariant
                        *self == *old(self),
                        self.wf(),
                        src == (ParamEnvSource::ModuleInst { module, inst, env, pos, named }),
                        env < self.envs@.len(),
                        ci <= self.pe_cache@.len(),
                        pe_cache_find(self.pe_cache@, module, inst, env, pos@, named@)
                            == pe_cache_find(
                            self.pe_cache@.skip(ci as int),
                            module,
                            inst,
                            env,
                            pos@,
                            named@,
                        ),
                    decreases self.pe_cache@.len() - ci,
                {
                    proof {
                        assert(self.pe_cache@.skip(ci as int)[0] == self.pe_cache@[ci as int]);
                        assert(self.pe_cache@.skip(ci as int).drop_first() =~= self.pe_cache@.skip(
                            ci + 1,
                        ));
                    }
                    let hit = self.pe_cache[ci].module == module && self.pe_cache[ci].inst == inst
                        && self.pe_cache[ci].env == env && eq_pos_list(
                        &self.pe_cache[ci].pos,
                        &pos,
                    ) && eq_named_list(&self.pe_cache[ci].named, &named);
                    if hit {
                        let res = self.pe_cache[ci].result;
                        proof {
                            assert(pe_cache_find(self.pe_cache@, module, inst, env, pos@, named@)
                                == Some(res));
                            assert(self.pe_cache@ == old(self).pe_cache@);
                            assert(pe_cache_find(
                                old(self).pe_cache@,
                                module,
                                inst,
                                env,
                                pos@,
                                named@,
                            ) == Some(res));
                            let e = self.pe_cache@[ci as int];
                            assert(e.module == module && e.inst == inst && e.env == env && e.pos@
                                == pos@ && e.named@ == named@ && e.result == res);
                            assert(e.env < self.envs@.len());
                            match e.result {
                                Ok(h) => {
                                    assert(h < self.envs@.len());
                                },
                                Err(_) => {},
                            }
                        }
                        return res;
                    }
                    ci = ci + 1;
                }
                let params: Vec<NodeId> = match self.store.module(module) {
                    Some(m) => crate::copy_vec(&m.params),
                    None => {
                        self.diags.push(
                            Diagnostic {
                                severity: Severity::Error,
                                kind: DiagKind::InternalBug,
                                span: None,
                            },
                        );
                        let e = PeEntry { module, inst, env, pos, named, result: Err(()) };
                        let ghost ev = e;
                        proof {
                            assert(ev.pos@ == pos@ && ev.named@ == named@);
                            lemma_pe_cache_find_push(self.pe_cache@, ev);
                        }
                        self.pe_cache.push(e);
                        return Err(());
                    },
                };
                match self.build_env_data(&params, env, &pos, &named) {
                    Ok(data) => {
                        let ghost nodes = self.store.nodes@;
                        let ghost outerb = self.envs@[env as int].bindings@;
                        let h = self.intern_env(data);
                        proof {
                            lemma_bindings_built_eq(
                                data,
                                self.envs@[h as int],
                                nodes,
                                outerb,
                                params@,
                                pos@,
                                named@,
                            );
                        }
                        let e = PeEntry { module, inst, env, pos, named, result: Ok(h) };
                        let ghost ev = e;
                        proof {
                            assert(ev.pos@ == pos@ && ev.named@ == named@);
                            lemma_pe_cache_find_push(self.pe_cache@, ev);
                        }
                        self.pe_cache.push(e);
                        Ok(h)
                    },
                    Err(d) => {
                        self.diags.push(d);
                        let e = PeEntry { module, inst, env, pos, named, result: Err(()) };
                        let ghost ev = e;
                        proof {
                            assert(ev.pos@ == pos@ && ev.named@ == named@);
                            lemma_pe_cache_find_push(self.pe_cache@, ev);
                        }
                        self.pe_cache.push(e);
                        Err(())
                    },
                }
            },
        }
    }
}

} // verus!
